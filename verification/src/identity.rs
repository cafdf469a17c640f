//! Who may administer the appliance: local accounts, their authentication, and
//! the grants that are looked up anew at every operation.
//!
//! Authentication identifies a principal of a source; authorization checks the
//! principal's current grant and the assurance that the appliance requires.

use crate::text;
use crate::text::{
    collect, digit_char, is_digit, is_lower, same, sorted, starts_with, str_opt, text_opt, texts,
};
use vstd::prelude::*;
use vstd::utf8::encode_utf8;

verus! {

/// The source of the accounts that the appliance itself keeps.
pub const LOCAL_SOURCE: &'static str = "local";

/// The number of bytes that a password has at most: one less than the hash
/// function takes, which counts the terminating zero.
pub const MAX_PASSWORD_BYTES: usize = 511;

/// The number of characters that a user name has at most.
pub const MAX_USERNAME: usize = 32;

// ---------------------------------------------------------------------------
// Types
// ---------------------------------------------------------------------------

/// Who someone is, at the source that knows them.
#[derive(Debug, PartialEq, Eq)]
pub struct Principal {
    pub source: String,
    pub subject: String,
    pub username: String,
}

#[verifier::ext_equal]
pub struct PrincipalView {
    pub source: Seq<char>,
    pub subject: Seq<char>,
    pub username: Seq<char>,
}

impl View for Principal {
    type V = PrincipalView;

    open spec fn view(&self) -> PrincipalView {
        PrincipalView { source: self.source@, subject: self.subject@, username: self.username@ }
    }
}

impl Clone for Principal {
    fn clone(&self) -> (r: Self)
        ensures
            r@ == self@,
    {
        Principal {
            source: self.source.clone(),
            subject: self.subject.clone(),
            username: self.username.clone(),
        }
    }
}

/// How sure an authentication is.
#[derive(Clone, Copy, Debug, PartialEq, Eq, PartialOrd, Ord, Structural)]
pub enum Assurance {
    Password,
    MultiFactor,
}

/// Whether one assurance is as sure as another asks for.
pub open spec fn assures(given: Assurance, required: Assurance) -> bool {
    required == Assurance::Password || given == Assurance::MultiFactor
}

/// Someone whose password was right when they gave it.
#[derive(Debug)]
pub struct Authentication {
    pub principal: Principal,
    pub assurance: Assurance,
    credential_version: u64,
}

#[verifier::ext_equal]
pub struct AuthenticationView {
    pub principal: PrincipalView,
    pub assurance: Assurance,
    pub credential_version: u64,
}

impl View for Authentication {
    type V = AuthenticationView;

    closed spec fn view(&self) -> AuthenticationView {
        AuthenticationView {
            principal: self.principal@,
            assurance: self.assurance,
            credential_version: self.credential_version,
        }
    }
}

impl Authentication {
    /// Who it is.
    pub fn who(&self) -> (r: &Principal)
        ensures
            r@ == self@.principal,
    {
        &self.principal
    }
}

impl Clone for Authentication {
    fn clone(&self) -> (r: Self)
        ensures
            r@ == self@,
    {
        Authentication {
            principal: self.principal.clone(),
            assurance: self.assurance,
            credential_version: self.credential_version,
        }
    }
}

/// A further proof of identity that is asked for.
#[derive(Debug)]
pub struct Challenge {
    pub source: String,
    pub required_assurance: Assurance,
}

/// What an authentication came to.
#[derive(Debug)]
pub enum AuthenticationResult {
    Authenticated(Authentication),
    Challenge(Challenge),
    Denied,
}

#[verifier::ext_equal]
pub enum ResultView {
    Authenticated(AuthenticationView),
    Challenge(Seq<char>, Assurance),
    Denied,
}

impl View for AuthenticationResult {
    type V = ResultView;

    open spec fn view(&self) -> ResultView {
        match self {
            AuthenticationResult::Authenticated(a) => ResultView::Authenticated(a@),
            AuthenticationResult::Challenge(c) => ResultView::Challenge(
                c.source@,
                c.required_assurance,
            ),
            AuthenticationResult::Denied => ResultView::Denied,
        }
    }
}

/// How a source authenticates.
#[derive(Clone, Copy, Debug, PartialEq, Eq, Structural)]
pub enum SourceKind {
    LocalPassword,
}

#[derive(Debug)]
pub struct Source {
    pub id: String,
    pub kind: SourceKind,
}

#[derive(Debug)]
pub struct LocalAccount {
    pub subject: String,
    pub source: String,
    pub username: String,
    pub password_hash: String,
    pub credential_version: u64,
    pub administrator: bool,
}

#[verifier::ext_equal]
pub struct AccountView {
    pub subject: Seq<char>,
    pub source: Seq<char>,
    pub username: Seq<char>,
    pub password_hash: Seq<char>,
    pub credential_version: u64,
    pub administrator: bool,
}

impl View for LocalAccount {
    type V = AccountView;

    open spec fn view(&self) -> AccountView {
        AccountView {
            subject: self.subject@,
            source: self.source@,
            username: self.username@,
            password_hash: self.password_hash@,
            credential_version: self.credential_version,
            administrator: self.administrator,
        }
    }
}

/// Everything that the appliance knows of its administrators.
#[derive(Debug)]
pub struct IdentityConfiguration {
    pub version: u32,
    pub sources: Vec<Source>,
    pub required_assurance: Assurance,
    pub accounts: Vec<LocalAccount>,
}

#[verifier::ext_equal]
pub struct ConfigurationView {
    pub version: u32,
    pub sources: Seq<Seq<char>>,
    pub kinds: Seq<SourceKind>,
    pub required_assurance: Assurance,
    pub accounts: Seq<AccountView>,
}

pub open spec fn source_ids(v: Seq<Source>) -> Seq<Seq<char>> {
    Seq::new(v.len(), |i: int| v[i].id@)
}

pub open spec fn source_kinds(v: Seq<Source>) -> Seq<SourceKind> {
    Seq::new(v.len(), |i: int| v[i].kind)
}

pub open spec fn account_views(v: Seq<LocalAccount>) -> Seq<AccountView> {
    Seq::new(v.len(), |i: int| v[i]@)
}

impl View for IdentityConfiguration {
    type V = ConfigurationView;

    open spec fn view(&self) -> ConfigurationView {
        ConfigurationView {
            version: self.version,
            sources: source_ids(self.sources@),
            kinds: source_kinds(self.sources@),
            required_assurance: self.required_assurance,
            accounts: account_views(self.accounts@),
        }
    }
}

/// Why an account operation was refused.
#[derive(Clone, Copy, Debug, PartialEq, Eq, Structural)]
pub enum AccountError {
    Forbidden,
    InvalidCredentials,
    AlreadyExists,
    NotFound,
    LastAdministrator,
    Storage,
}

// ---------------------------------------------------------------------------
// Names and passwords
// ---------------------------------------------------------------------------

pub open spec fn username_char(c: char) -> bool {
    is_lower(c) || is_digit(c) || c == '_' || c == '-'
}

/// Whether `s` can be a user name: lower-case letters, digits, underscores and
/// dashes, with a letter or an underscore first, and not `root`.
pub open spec fn is_username(s: Seq<char>) -> bool {
    &&& 1 <= s.len() <= MAX_USERNAME
    &&& is_lower(s[0]) || s[0] == '_'
    &&& s != "root"@
    &&& forall|i: int| 1 <= i < s.len() ==> username_char(#[trigger] s[i])
}

/// Whether a character is an ASCII control character.
pub open spec fn is_control(c: char) -> bool {
    (c as u32) < 0x20 || c as u32 == 0x7f
}

/// Whether `s` can be a password: not empty, not too long, and without control
/// characters, which a terminal takes for commands.
pub open spec fn is_password(s: Seq<char>) -> bool {
    &&& s.len() > 0
    &&& encode_utf8(s).len() <= MAX_PASSWORD_BYTES
    &&& forall|i: int| 0 <= i < s.len() ==> !is_control(#[trigger] s[i])
}

/// Whether `s` can be a user name.
pub fn valid_username(s: &str) -> (r: bool)
    ensures
        r == is_username(s@),
{
    let v = text::chars_of(s);
    if v.len() == 0 || v.len() > MAX_USERNAME {
        return false;
    }
    let first = v[0];
    if !(('a' <= first && first <= 'z') || first == '_') || same(s, "root") {
        return false;
    }
    let mut i: usize = 1;
    while i < v.len()
        invariant
            v@ == s@,
            1 <= i <= v@.len(),
            forall|j: int| 1 <= j < i ==> username_char(#[trigger] s@[j]),
        decreases v@.len() - i,
    {
        let c = v[i];
        assert(c == s@[i as int]);
        if !(('a' <= c && c <= 'z') || ('0' <= c && c <= '9') || c == '_' || c == '-') {
            return false;
        }
        i = i + 1;
    }
    true
}

/// Whether `s` can be a password.
pub fn valid_password(s: &str) -> (r: bool)
    ensures
        r == is_password(s@),
{
    if s.is_empty() || s.as_bytes().len() > MAX_PASSWORD_BYTES {
        return false;
    }
    let v = text::chars_of(s);
    let mut i: usize = 0;
    while i < v.len()
        invariant
            v@ == s@,
            i <= v@.len(),
            forall|j: int| 0 <= j < i ==> !is_control(#[trigger] s@[j]),
        decreases v@.len() - i,
    {
        let c: u32 = v[i] as u32;
        assert(v@[i as int] == s@[i as int]);
        if c < 0x20 || c == 0x7f {
            return false;
        }
        i = i + 1;
    }
    true
}

// ---------------------------------------------------------------------------
// Configurations
// ---------------------------------------------------------------------------

/// The start of every password hash that is accepted.
pub const HASH_PREFIX: &'static str = "$y$";

pub open spec fn source_rule(ids: Seq<Seq<char>>, i: int) -> bool {
    ids[i].len() > 0 && forall|j: int| 0 <= j < i ==> #[trigger] ids[j] != ids[i]
}

/// Whether the sources are in order: each has a name of its own.
pub open spec fn sources_ok(ids: Seq<Seq<char>>) -> bool {
    forall|i: int| 0 <= i < ids.len() ==> #[trigger] source_rule(ids, i)
}

/// Whether two accounts are told apart, by subject and by name.
pub open spec fn apart(a: AccountView, b: AccountView) -> bool {
    a.source != b.source || (a.subject != b.subject && a.username != b.username)
}

pub open spec fn account_rule(c: ConfigurationView, i: int) -> bool {
    let a = c.accounts[i];
    &&& c.sources.contains(a.source)
    &&& a.subject.len() > 0
    &&& is_username(a.username)
    &&& a.credential_version > 0
    &&& starts_with(a.password_hash, HASH_PREFIX@)
    &&& forall|j: int| 0 <= j < i ==> apart(#[trigger] c.accounts[j], a)
}

/// Whether the accounts are in order: each belongs to a source, and no two
/// have a subject or a name in common there.
pub open spec fn accounts_ok(c: ConfigurationView) -> bool {
    forall|i: int| 0 <= i < c.accounts.len() ==> #[trigger] account_rule(c, i)
}

/// What is wrong with a configuration, if anything.
pub open spec fn configuration_error(c: ConfigurationView) -> Option<Seq<char>> {
    if c.version != 1 {
        Some("unsupported Identity configuration version"@)
    } else if !sources_ok(c.sources) {
        Some("invalid Authentication sources"@)
    } else if !accounts_ok(c) {
        Some("invalid local accounts"@)
    } else {
        None
    }
}

/// Whether a configuration can be relied on.
pub open spec fn well_formed(c: ConfigurationView) -> bool {
    configuration_error(c) is None
}

/// What was found where the configuration is kept.
pub enum Stored {
    /// Nothing could be read.
    Unavailable,
    /// What was read is no configuration.
    Invalid,
    /// A configuration.
    Decoded(IdentityConfiguration),
}

/// What reading a configuration comes to.
pub open spec fn read_error(s: Stored) -> Option<Seq<char>> {
    match s {
        Stored::Unavailable => Some("Identity configuration unavailable"@),
        Stored::Invalid => Some("Identity configuration invalid"@),
        Stored::Decoded(c) => configuration_error(c@),
    }
}

fn check_sources(sources: &Vec<Source>) -> (r: bool)
    ensures
        r == sources_ok(source_ids(sources@)),
{
    let ghost ids = source_ids(sources@);
    let mut i: usize = 0;
    while i < sources.len()
        invariant
            ids == source_ids(sources@),
            i <= sources@.len(),
            forall|k: int| 0 <= k < i ==> #[trigger] source_rule(ids, k),
        decreases sources@.len() - i,
    {
        assert(ids[i as int] == sources@[i as int].id@);
        if sources[i].id.as_str().is_empty() {
            assert(!source_rule(ids, i as int));
            return false;
        }
        let mut j: usize = 0;
        while j < i
            invariant
                ids == source_ids(sources@),
                j <= i < sources@.len(),
                forall|k: int| 0 <= k < j ==> #[trigger] ids[k] != ids[i as int],
            decreases i - j,
        {
            assert(ids[j as int] == sources@[j as int].id@ && ids[i as int] == sources@[i as int].id@);
            if same(sources[j].id.as_str(), sources[i].id.as_str()) {
                assert(!source_rule(ids, i as int));
                return false;
            }
            j = j + 1;
        }
        i = i + 1;
    }
    true
}

fn has_source(sources: &Vec<Source>, id: &str) -> (r: bool)
    ensures
        r == source_ids(sources@).contains(id@),
{
    let ghost ids = source_ids(sources@);
    let mut i: usize = 0;
    while i < sources.len()
        invariant
            ids == source_ids(sources@),
            i <= sources@.len(),
            forall|k: int| 0 <= k < i ==> #[trigger] ids[k] != id@,
        decreases sources@.len() - i,
    {
        assert(ids[i as int] == sources@[i as int].id@);
        if same(sources[i].id.as_str(), id) {
            return true;
        }
        i = i + 1;
    }
    false
}

fn check_account(c: &IdentityConfiguration, i: usize) -> (r: bool)
    requires
        i < c.accounts@.len(),
    ensures
        r == account_rule(c@, i as int),
{
    let a = &c.accounts[i];
    assert(c@.accounts[i as int] == a@);
    if !has_source(&c.sources, a.source.as_str()) || a.subject.as_str().is_empty() || !valid_username(
        a.username.as_str(),
    ) || a.credential_version == 0 || !text::begins(a.password_hash.as_str(), HASH_PREFIX) {
        return false;
    }
    let mut j: usize = 0;
    while j < i
        invariant
            j <= i < c.accounts@.len(),
            a@ == c@.accounts[i as int],
            forall|k: int| 0 <= k < j ==> apart(#[trigger] c@.accounts[k], a@),
        decreases i - j,
    {
        let b = &c.accounts[j];
        assert(c@.accounts[j as int] == b@);
        if same(b.source.as_str(), a.source.as_str()) && (same(b.subject.as_str(), a.subject.as_str()) || same(
            b.username.as_str(),
            a.username.as_str(),
        )) {
            return false;
        }
        j = j + 1;
    }
    true
}

impl IdentityConfiguration {
    /// What was found, where it can be relied on.
    pub fn read(stored: Stored) -> (r: Result<Self, String>)
        ensures
            match r {
                Ok(c) => stored == Stored::Decoded(c) && well_formed(c@),
                Err(e) => read_error(stored) == Some(e@),
            },
    {
        let c = match stored {
            Stored::Unavailable => return Err("Identity configuration unavailable".to_owned()),
            Stored::Invalid => return Err("Identity configuration invalid".to_owned()),
            Stored::Decoded(c) => c,
        };
        if c.version != 1 {
            return Err("unsupported Identity configuration version".to_owned());
        }
        if !check_sources(&c.sources) {
            return Err("invalid Authentication sources".to_owned());
        }
        let mut i: usize = 0;
        while i < c.accounts.len()
            invariant
                stored == Stored::Decoded(c),
                c.version == 1,
                sources_ok(c@.sources),
                i <= c.accounts@.len(),
                forall|k: int| 0 <= k < i ==> #[trigger] account_rule(c@, k),
            decreases c.accounts@.len() - i,
        {
            if !check_account(&c, i) {
                return Err("invalid local accounts".to_owned());
            }
            i = i + 1;
        }
        Ok(c)
    }
}

// ---------------------------------------------------------------------------
// The first administrator
// ---------------------------------------------------------------------------

/// The account of an administrator whose password was just set.
pub open spec fn new_account(subject: Seq<char>, username: Seq<char>, hash: Seq<char>) -> AccountView {
    AccountView {
        subject,
        source: LOCAL_SOURCE@,
        username,
        password_hash: hash,
        credential_version: 1,
        administrator: true,
    }
}

/// The configuration with one administrator.
pub open spec fn first_configuration(subject: Seq<char>, username: Seq<char>, hash: Seq<char>) -> ConfigurationView {
    ConfigurationView {
        version: 1,
        sources: seq![LOCAL_SOURCE@],
        kinds: seq![SourceKind::LocalPassword],
        required_assurance: Assurance::Password,
        accounts: seq![new_account(subject, username, hash)],
    }
}

/// Makes the configuration with one administrator, whose random subject and
/// password hash are given. Only an appliance without an owner gets one.
pub fn create_first_administrator(
    bootstrapped: bool,
    username: &str,
    password: &str,
    subject: Result<String, String>,
    hash: Result<String, String>,
) -> (r: Result<IdentityConfiguration, String>)
    ensures
        match r {
            Ok(c) => {
                &&& !bootstrapped && is_username(username@) && is_password(password@)
                &&& subject matches Ok(s) && hash matches Ok(h) && c@ == first_configuration(
                    s@,
                    username@,
                    h@,
                )
            },
            Err(e) => if bootstrapped {
                e@ == "already bootstrapped"@
            } else if !is_username(username@) || !is_password(password@) {
                e@ == "invalid administrator credentials"@
            } else {
                match (subject, hash) {
                    (Err(x), _) => e == x,
                    (_, Err(x)) => e == x,
                    _ => false,
                }
            },
        },
{
    if bootstrapped {
        return Err("already bootstrapped".to_owned());
    }
    if !valid_username(username) || !valid_password(password) {
        return Err("invalid administrator credentials".to_owned());
    }
    let subject = match subject {
        Ok(s) => s,
        Err(e) => return Err(e),
    };
    let hash = match hash {
        Ok(h) => h,
        Err(e) => return Err(e),
    };
    let c = IdentityConfiguration {
        version: 1,
        sources: vec![Source { id: LOCAL_SOURCE.to_owned(), kind: SourceKind::LocalPassword }],
        required_assurance: Assurance::Password,
        accounts: vec![
            LocalAccount {
                source: LOCAL_SOURCE.to_owned(),
                subject,
                username: username.to_owned(),
                password_hash: hash,
                credential_version: 1,
                administrator: true,
            },
        ],
    };
    proof {
        assert(c@.sources == seq![LOCAL_SOURCE@]);
        assert(c@.kinds == seq![SourceKind::LocalPassword]);
        assert(c@.accounts == seq![new_account(subject@, username@, hash@)]);
    }
    Ok(c)
}

/// Whether an account is a local administrator.
pub open spec fn is_local_administrator(a: AccountView) -> bool {
    a.source == LOCAL_SOURCE@ && a.administrator
}

/// The subject of the first local administrator.
pub open spec fn first_subject(c: ConfigurationView) -> Option<Seq<char>> {
    text::first_some(
        c.accounts.len(),
        |i: int|
            if is_local_administrator(c.accounts[i]) {
                Some(c.accounts[i].subject)
            } else {
                None
            },
    )
}

/// The subject of the first local administrator, where there is a
/// configuration that can be relied on.
pub fn tentative_first_administrator_subject(config: &Result<IdentityConfiguration, String>) -> (r: Option<
    String,
>)
    ensures
        text_opt(r) == match *config {
            Ok(c) => first_subject(c@),
            Err(_) => None,
        },
{
    let c = match config {
        Ok(c) => c,
        Err(_) => return None,
    };
    let ghost f = |i: int|
        if is_local_administrator(c@.accounts[i]) {
            Some(c@.accounts[i].subject)
        } else {
            None
        };
    let mut i: usize = 0;
    while i < c.accounts.len()
        invariant
            config == Ok::<IdentityConfiguration, String>(*c),
            f == (|i: int|
                if is_local_administrator(c@.accounts[i]) {
                    Some(c@.accounts[i].subject)
                } else {
                    None
                }),
            i <= c.accounts@.len(),
            text::first_some(i as nat, f) is None,
        decreases c.accounts@.len() - i,
    {
        let a = &c.accounts[i];
        assert(c@.accounts[i as int] == a@);
        if same(a.source.as_str(), LOCAL_SOURCE) && a.administrator {
            proof {
                text::lemma_first_some((i + 1) as nat, c@.accounts.len(), f);
            }
            return Some(a.subject.clone());
        }
        i = i + 1;
    }
    None
}

/// Whether there is a local administrator, in a configuration that can be
/// relied on.
pub fn tentative_first_administrator_exists(config: &Result<IdentityConfiguration, String>) -> (r: bool)
    ensures
        r == (config matches Ok(c) && exists|i: int|
            0 <= i < c@.accounts.len() && is_local_administrator(#[trigger] c@.accounts[i])),
{
    let r = tentative_first_administrator_subject(config).is_some();
    proof {
        if let Ok(c) = config {
            let f = |i: int|
                if is_local_administrator(c@.accounts[i]) {
                    Some(c@.accounts[i].subject)
                } else {
                    None
                };
            text::lemma_first_some_none(c@.accounts.len(), f);
            if r {
                let i = choose|i: int| 0 <= i < c@.accounts.len() && #[trigger] f(i) is Some;
                assert(is_local_administrator(c@.accounts[i]));
            } else {
                assert forall|i: int| 0 <= i < c@.accounts.len() implies !is_local_administrator(
                    #[trigger] c@.accounts[i],
                ) by {
                    assert(f(i) is None);
                }
            }
        }
    }
    r
}

// ---------------------------------------------------------------------------
// Authentication
// ---------------------------------------------------------------------------

pub open spec fn account_named(c: ConfigurationView, source: Seq<char>, username: Seq<char>) -> spec_fn(
    int,
) -> Option<AccountView> {
    |i: int|
        if c.accounts[i].source == source && c.accounts[i].username == username {
            Some(c.accounts[i])
        } else {
            None
        }
}

/// The account of that name at that source.
pub open spec fn find_account(c: ConfigurationView, source: Seq<char>, username: Seq<char>) -> Option<
    AccountView,
> {
    text::first_some(c.accounts.len(), account_named(c, source, username))
}

/// The hash that a password is checked against: that of the account or, where
/// there is none, one that belongs to nobody, so that both take as long.
pub open spec fn hash_to_check(
    bootstrapped: bool,
    config: Option<ConfigurationView>,
    source: Seq<char>,
    username: Seq<char>,
    password: Seq<char>,
    nobody: Option<Seq<char>>,
) -> Option<Seq<char>> {
    match (config, nobody) {
        (Some(c), Some(dummy)) => if bootstrapped && is_password(password) && c.sources.contains(source) {
            match find_account(c, source, username) {
                Some(a) => Some(a.password_hash),
                None => Some(dummy),
            }
        } else {
            None
        },
        _ => None,
    }
}

/// What an authentication comes to, where `candidate` is what the password
/// hashes to under the hash that it is checked against.
pub open spec fn authentication_outcome(
    bootstrapped: bool,
    config: Option<ConfigurationView>,
    source: Seq<char>,
    username: Seq<char>,
    password: Seq<char>,
    nobody: Option<Seq<char>>,
    candidate: Option<Seq<char>>,
) -> ResultView {
    match hash_to_check(bootstrapped, config, source, username, password, nobody) {
        Some(expected) => match find_account(config->0, source, username) {
            Some(a) => if candidate != Some(expected) {
                ResultView::Denied
            } else if !assures(Assurance::Password, (config->0).required_assurance) {
                ResultView::Challenge(source, (config->0).required_assurance)
            } else {
                ResultView::Authenticated(
                    AuthenticationView {
                        principal: PrincipalView { source, subject: a.subject, username: a.username },
                        assurance: Assurance::Password,
                        credential_version: a.credential_version,
                    },
                )
            },
            None => ResultView::Denied,
        },
        None => ResultView::Denied,
    }
}

pub open spec fn config_view(c: Option<&IdentityConfiguration>) -> Option<ConfigurationView> {
    match c {
        Some(x) => Some(x@),
        None => None,
    }
}

fn account_index(c: &IdentityConfiguration, source: &str, username: &str) -> (r: Option<usize>)
    ensures
        match r {
            Some(i) => i < c.accounts@.len() && find_account(c@, source@, username@) == Some(
                c@.accounts[i as int],
            ),
            None => find_account(c@, source@, username@) is None,
        },
{
    let ghost f = account_named(c@, source@, username@);
    let mut i: usize = 0;
    while i < c.accounts.len()
        invariant
            f == account_named(c@, source@, username@),
            i <= c.accounts@.len(),
            text::first_some(i as nat, f) is None,
        decreases c.accounts@.len() - i,
    {
        let a = &c.accounts[i];
        assert(c@.accounts[i as int] == a@);
        if same(a.source.as_str(), source) && same(a.username.as_str(), username) {
            proof {
                text::lemma_first_some((i + 1) as nat, c@.accounts.len(), f);
            }
            return Some(i);
        }
        i = i + 1;
    }
    None
}

/// The hash that a password is checked against.
pub fn expected_hash(
    bootstrapped: bool,
    config: Option<&IdentityConfiguration>,
    source: &str,
    username: &str,
    password: &str,
    nobody: Option<&str>,
) -> (r: Option<String>)
    ensures
        text_opt(r) == hash_to_check(
            bootstrapped,
            config_view(config),
            source@,
            username@,
            password@,
            str_opt(nobody),
        ),
{
    if !bootstrapped || !valid_password(password) {
        return None;
    }
    match (config, nobody) {
        (Some(c), Some(dummy)) => {
            if !has_source(&c.sources, source) {
                return None;
            }
            match account_index(c, source, username) {
                Some(i) => {
                    assert(c@.accounts[i as int] == c.accounts@[i as int]@);
                    Some(c.accounts[i].password_hash.clone())
                },
                None => Some(dummy.to_owned()),
            }
        },
        _ => None,
    }
}

/// Whether two byte strings are the same, in a time that depends on their
/// lengths alone.
pub fn eq_ct(a: &[u8], b: &[u8]) -> (r: bool)
    ensures
        r == (a@ == b@),
{
    if a.len() != b.len() {
        return false;
    }
    let mut difference: u8 = 0;
    let mut i: usize = 0;
    assert(a@.take(0) == b@.take(0));
    while i < a.len()
        invariant
            a@.len() == b@.len(),
            i <= a@.len(),
            difference == 0 <==> a@.take(i as int) == b@.take(i as int),
        decreases a@.len() - i,
    {
        let left: u8 = a[i];
        let right: u8 = b[i];
        proof {
            assert((difference | (left ^ right)) == 0 <==> difference == 0 && left == right)
                by (bit_vector);
            assert(a@.take(i + 1) == a@.take(i as int).push(left));
            assert(b@.take(i + 1) == b@.take(i as int).push(right));
            if a@.take(i + 1) == b@.take(i + 1) {
                assert(a@.take(i + 1).drop_last() == a@.take(i as int));
                assert(b@.take(i + 1).drop_last() == b@.take(i as int));
                assert(a@.take(i + 1).last() == left && b@.take(i + 1).last() == right);
            }
        }
        difference = difference | (left ^ right);
        i = i + 1;
    }
    assert(a@.take(i as int) == a@ && b@.take(i as int) == b@);
    difference == 0
}

fn matches_hash(candidate: &str, expected: &str) -> (r: bool)
    ensures
        r == (candidate@ == expected@),
{
    let r = eq_ct(candidate.as_bytes(), expected.as_bytes());
    proof {
        vstd::utf8::encode_utf8_decode_utf8(candidate@);
        vstd::utf8::encode_utf8_decode_utf8(expected@);
    }
    r
}

/// Authenticates someone, where `candidate` is what the password hashes to
/// under the hash that [`expected_hash`] gives.
pub fn authenticate(
    bootstrapped: bool,
    config: Option<&IdentityConfiguration>,
    source: &str,
    username: &str,
    password: &str,
    nobody: Option<&str>,
    candidate: Option<&str>,
) -> (r: AuthenticationResult)
    ensures
        r@ == authentication_outcome(
            bootstrapped,
            config_view(config),
            source@,
            username@,
            password@,
            str_opt(nobody),
            str_opt(candidate),
        ),
{
    let expected = match expected_hash(bootstrapped, config, source, username, password, nobody) {
        Some(h) => h,
        None => return AuthenticationResult::Denied,
    };
    let matched = match candidate {
        Some(c) => matches_hash(c, expected.as_str()),
        None => false,
    };
    if !matched {
        return AuthenticationResult::Denied;
    }
    match config {
        Some(c) => match account_index(c, source, username) {
            Some(i) => {
                let a = &c.accounts[i];
                assert(c@.accounts[i as int] == a@);
                if c.required_assurance != Assurance::Password {
                    return AuthenticationResult::Challenge(
                        Challenge {
                            source: source.to_owned(),
                            required_assurance: c.required_assurance,
                        },
                    );
                }
                let r = Authentication {
                    principal: Principal {
                        source: source.to_owned(),
                        subject: a.subject.clone(),
                        username: a.username.clone(),
                    },
                    assurance: Assurance::Password,
                    credential_version: a.credential_version,
                };
                AuthenticationResult::Authenticated(r)
            },
            None => AuthenticationResult::Denied,
        },
        None => AuthenticationResult::Denied,
    }
}

// ---------------------------------------------------------------------------
// Authorization
// ---------------------------------------------------------------------------

/// Whether an account is the one that was authenticated, as it was then, and
/// administers the appliance.
pub open spec fn grants(a: AccountView, who: AuthenticationView) -> bool {
    &&& a.source == who.principal.source
    &&& a.subject == who.principal.subject
    &&& a.username == who.principal.username
    &&& a.credential_version == who.credential_version
    &&& a.administrator
}

/// Whether someone administers the appliance now.
pub open spec fn authorized(c: ConfigurationView, who: AuthenticationView) -> bool {
    &&& assures(who.assurance, c.required_assurance)
    &&& c.sources.contains(who.principal.source)
    &&& exists|i: int| 0 <= i < c.accounts.len() && grants(#[trigger] c.accounts[i], who)
}

/// Whether someone administers the appliance now.
pub fn authorized_in(c: &IdentityConfiguration, who: &Authentication) -> (r: bool)
    ensures
        r == authorized(c@, who@),
{
    if c.required_assurance != Assurance::Password && who.assurance != Assurance::MultiFactor {
        return false;
    }
    if !has_source(&c.sources, who.principal.source.as_str()) {
        return false;
    }
    let mut i: usize = 0;
    while i < c.accounts.len()
        invariant
            i <= c.accounts@.len(),
            assures(who@.assurance, c@.required_assurance),
            c@.sources.contains(who@.principal.source),
            forall|j: int| 0 <= j < i ==> !grants(#[trigger] c@.accounts[j], who@),
        decreases c.accounts@.len() - i,
    {
        let a = &c.accounts[i];
        assert(c@.accounts[i as int] == a@);
        if same(a.source.as_str(), who.principal.source.as_str()) && same(
            a.subject.as_str(),
            who.principal.subject.as_str(),
        ) && same(a.username.as_str(), who.principal.username.as_str()) && a.credential_version
            == who.credential_version && a.administrator {
            assert(grants(c@.accounts[i as int], who@));
            return true;
        }
        i = i + 1;
    }
    false
}

/// Whether someone administers the appliance now: never one without an owner
/// or without a configuration that can be relied on.
pub fn authorize_administrator(
    bootstrapped: bool,
    config: &Result<IdentityConfiguration, String>,
    who: &Authentication,
) -> (r: bool)
    ensures
        r == (bootstrapped && (config matches Ok(c) && authorized(c@, who@))),
{
    if !bootstrapped {
        return false;
    }
    match config {
        Ok(c) => authorized_in(c, who),
        Err(_) => false,
    }
}

// ---------------------------------------------------------------------------
// Accounts
// ---------------------------------------------------------------------------

pub open spec fn administrator_at(c: ConfigurationView) -> spec_fn(int) -> Option<Seq<char>> {
    |i: int|
        if is_local_administrator(c.accounts[i]) {
            Some(c.accounts[i].username)
        } else {
            None
        }
}

/// The names of the local administrators.
pub open spec fn administrator_names(c: ConfigurationView) -> Seq<Seq<char>> {
    collect(c.accounts.len(), administrator_at(c))
}

fn local_names(c: &IdentityConfiguration) -> (r: Vec<String>)
    ensures
        texts(r@) == administrator_names(c@),
{
    let ghost f = administrator_at(c@);
    let mut out: Vec<String> = Vec::new();
    let mut i: usize = 0;
    assert(texts(out@) == Seq::<Seq<char>>::empty());
    while i < c.accounts.len()
        invariant
            f == administrator_at(c@),
            i <= c.accounts@.len(),
            texts(out@) == collect(i as nat, f),
        decreases c.accounts@.len() - i,
    {
        let a = &c.accounts[i];
        assert(c@.accounts[i as int] == a@);
        if same(a.source.as_str(), LOCAL_SOURCE) && a.administrator {
            text::add_text(&mut out, a.username.clone());
        }
        i = i + 1;
    }
    out
}

/// Why an operation on accounts is refused before it is looked at: there is no
/// owner, no configuration, or no grant.
pub open spec fn access_error(
    bootstrapped: bool,
    config: Result<IdentityConfiguration, String>,
    who: AuthenticationView,
) -> Option<AccountError> {
    if !bootstrapped {
        Some(AccountError::Forbidden)
    } else {
        match config {
            Err(_) => Some(AccountError::Storage),
            Ok(c) => if !authorized(c@, who) {
                Some(AccountError::Forbidden)
            } else {
                None
            },
        }
    }
}

fn let_in(bootstrapped: bool, config: Result<IdentityConfiguration, String>, who: &Authentication) -> (r: Result<
    IdentityConfiguration,
    AccountError,
>)
    ensures
        match r {
            Ok(c) => access_error(bootstrapped, config, who@) is None && config == Ok::<
                IdentityConfiguration,
                String,
            >(c),
            Err(e) => access_error(bootstrapped, config, who@) == Some(e),
        },
{
    if !bootstrapped {
        return Err(AccountError::Forbidden);
    }
    match config {
        Ok(c) => if authorized_in(&c, who) {
            Ok(c)
        } else {
            Err(AccountError::Forbidden)
        },
        Err(_) => Err(AccountError::Storage),
    }
}

/// The names of the local administrators, in order.
pub fn list_local_administrators(
    bootstrapped: bool,
    config: Result<IdentityConfiguration, String>,
    who: &Authentication,
) -> (r: Result<Vec<String>, AccountError>)
    ensures
        match r {
            Ok(names) => {
                &&& access_error(bootstrapped, config, who@) is None
                &&& config matches Ok(c) && sorted(texts(names@)) && texts(names@).to_multiset()
                    == administrator_names(c@).to_multiset()
            },
            Err(e) => access_error(bootstrapped, config, who@) == Some(e),
        },
{
    match let_in(bootstrapped, config, who) {
        Ok(c) => Ok(text::sort_texts(&local_names(&c))),
        Err(e) => Err(e),
    }
}

/// The configuration with one more account.
pub open spec fn with_account(c: ConfigurationView, a: AccountView) -> ConfigurationView {
    ConfigurationView { accounts: c.accounts.push(a), ..c }
}

/// Why an administrator cannot be created, if so.
pub open spec fn create_error(
    bootstrapped: bool,
    config: Result<IdentityConfiguration, String>,
    who: AuthenticationView,
    username: Seq<char>,
    password: Seq<char>,
    subject: Result<String, String>,
    hash: Result<String, String>,
) -> Option<AccountError> {
    if !is_username(username) || !is_password(password) {
        Some(AccountError::InvalidCredentials)
    } else if access_error(bootstrapped, config, who) is Some {
        access_error(bootstrapped, config, who)
    } else if !(config->Ok_0)@.sources.contains(LOCAL_SOURCE@) {
        Some(AccountError::Storage)
    } else if find_account((config->Ok_0)@, LOCAL_SOURCE@, username) is Some {
        Some(AccountError::AlreadyExists)
    } else if subject is Err || hash is Err {
        Some(AccountError::Storage)
    } else {
        None
    }
}

/// Makes the configuration with one more administrator, whose random subject
/// and password hash are given.
pub fn create_local_administrator(
    bootstrapped: bool,
    config: Result<IdentityConfiguration, String>,
    who: &Authentication,
    username: &str,
    password: &str,
    subject: Result<String, String>,
    hash: Result<String, String>,
) -> (r: Result<IdentityConfiguration, AccountError>)
    ensures
        match r {
            Ok(c) => {
                &&& create_error(bootstrapped, config, who@, username@, password@, subject, hash) is None
                &&& c@ == with_account(
                    (config->Ok_0)@,
                    new_account((subject->Ok_0)@, username@, (hash->Ok_0)@),
                )
            },
            Err(e) => create_error(bootstrapped, config, who@, username@, password@, subject, hash) == Some(
                e,
            ),
        },
{
    if !valid_username(username) || !valid_password(password) {
        return Err(AccountError::InvalidCredentials);
    }
    let mut c = match let_in(bootstrapped, config, who) {
        Ok(c) => c,
        Err(e) => return Err(e),
    };
    if !has_source(&c.sources, LOCAL_SOURCE) {
        return Err(AccountError::Storage);
    }
    if account_index(&c, LOCAL_SOURCE, username).is_some() {
        return Err(AccountError::AlreadyExists);
    }
    let (s, h) = match (subject, hash) {
        (Ok(s), Ok(h)) => (s, h),
        _ => return Err(AccountError::Storage),
    };
    let ghost was = c@;
    let ghost old_accounts = c.accounts@;
    c.accounts.push(
        LocalAccount {
            source: LOCAL_SOURCE.to_owned(),
            subject: s,
            username: username.to_owned(),
            password_hash: h,
            credential_version: 1,
            administrator: true,
        },
    );
    proof {
        assert(account_views(c.accounts@) == account_views(old_accounts).push(
            new_account(s@, username@, h@),
        ));
    }
    Ok(c)
}

pub open spec fn place_at(c: ConfigurationView, username: Seq<char>) -> spec_fn(int) -> Option<int> {
    |i: int|
        if is_local_administrator(c.accounts[i]) && c.accounts[i].username == username {
            Some(i)
        } else {
            None
        }
}

/// The place of the local administrator of that name.
pub open spec fn administrator_place(c: ConfigurationView, username: Seq<char>) -> Option<int> {
    text::first_some(c.accounts.len(), place_at(c, username))
}

/// What is found is there.
proof fn lemma_place(c: ConfigurationView, username: Seq<char>, n: nat)
    requires
        n <= c.accounts.len(),
    ensures
        match text::first_some(n, place_at(c, username)) {
            Some(k) => 0 <= k < n && is_local_administrator(c.accounts[k]) && c.accounts[k].username
                == username,
            None => forall|i: int|
                0 <= i < n ==> !(is_local_administrator(#[trigger] c.accounts[i]) && c.accounts[i].username
                    == username),
        },
    decreases n,
{
    if n > 0 {
        lemma_place(c, username, (n - 1) as nat);
    }
}

fn administrator_index(c: &IdentityConfiguration, username: &str) -> (r: Option<usize>)
    ensures
        match r {
            Some(k) => k < c.accounts@.len() && administrator_place(c@, username@) == Some(k as int),
            None => administrator_place(c@, username@) is None,
        },
{
    let ghost f = place_at(c@, username@);
    let mut i: usize = 0;
    while i < c.accounts.len()
        invariant
            f == place_at(c@, username@),
            i <= c.accounts@.len(),
            text::first_some(i as nat, f) is None,
        decreases c.accounts@.len() - i,
    {
        let a = &c.accounts[i];
        assert(c@.accounts[i as int] == a@);
        if same(a.source.as_str(), LOCAL_SOURCE) && same(a.username.as_str(), username)
            && a.administrator {
            proof {
                text::lemma_first_some((i + 1) as nat, c@.accounts.len(), f);
            }
            return Some(i);
        }
        i = i + 1;
    }
    None
}

/// The account with another password: whoever was authenticated by the old one
/// no longer is.
pub open spec fn with_password(a: AccountView, hash: Seq<char>) -> AccountView {
    AccountView {
        password_hash: hash,
        credential_version: (a.credential_version + 1) as u64,
        ..a
    }
}

/// Why a password cannot be changed, if so.
pub open spec fn change_error(
    bootstrapped: bool,
    config: Result<IdentityConfiguration, String>,
    who: AuthenticationView,
    username: Seq<char>,
    password: Seq<char>,
    hash: Result<String, String>,
) -> Option<AccountError> {
    if !is_password(password) {
        Some(AccountError::InvalidCredentials)
    } else if access_error(bootstrapped, config, who) is Some {
        access_error(bootstrapped, config, who)
    } else {
        let c = (config->Ok_0)@;
        match administrator_place(c, username) {
            None => Some(AccountError::NotFound),
            Some(k) => if c.accounts[k].credential_version == u64::MAX || hash is Err {
                Some(AccountError::Storage)
            } else {
                None
            },
        }
    }
}

/// The configuration in which that administrator has another password.
pub open spec fn password_changed(c: ConfigurationView, username: Seq<char>, hash: Seq<char>) -> ConfigurationView {
    let k = administrator_place(c, username)->0;
    ConfigurationView { accounts: c.accounts.update(k, with_password(c.accounts[k], hash)), ..c }
}

/// Makes the configuration in which an administrator has another password,
/// whose hash is given.
pub fn change_local_administrator_password(
    bootstrapped: bool,
    config: Result<IdentityConfiguration, String>,
    who: &Authentication,
    username: &str,
    password: &str,
    hash: Result<String, String>,
) -> (r: Result<IdentityConfiguration, AccountError>)
    ensures
        match r {
            Ok(c) => {
                &&& change_error(bootstrapped, config, who@, username@, password@, hash) is None
                &&& c@ == password_changed((config->Ok_0)@, username@, (hash->Ok_0)@)
            },
            Err(e) => change_error(bootstrapped, config, who@, username@, password@, hash) == Some(e),
        },
{
    if !valid_password(password) {
        return Err(AccountError::InvalidCredentials);
    }
    let mut c = match let_in(bootstrapped, config, who) {
        Ok(c) => c,
        Err(e) => return Err(e),
    };
    let k = match administrator_index(&c, username) {
        Some(k) => k,
        None => return Err(AccountError::NotFound),
    };
    let a = &c.accounts[k];
    assert(c@.accounts[k as int] == a@);
    if a.credential_version == u64::MAX {
        return Err(AccountError::Storage);
    }
    let h = match hash {
        Ok(h) => h,
        Err(_) => return Err(AccountError::Storage),
    };
    let changed = LocalAccount {
        subject: a.subject.clone(),
        source: a.source.clone(),
        username: a.username.clone(),
        password_hash: h,
        credential_version: a.credential_version + 1,
        administrator: a.administrator,
    };
    assert(changed@ == with_password(a@, h@));
    let ghost old_accounts = c.accounts@;
    c.accounts.set(k, changed);
    proof {
        assert(account_views(c.accounts@) == account_views(old_accounts).update(k as int, changed@));
    }
    Ok(c)
}

/// Why an administrator cannot be removed, if so.
pub open spec fn remove_error(
    bootstrapped: bool,
    config: Result<IdentityConfiguration, String>,
    who: AuthenticationView,
    username: Seq<char>,
) -> Option<AccountError> {
    if access_error(bootstrapped, config, who) is Some {
        access_error(bootstrapped, config, who)
    } else if administrator_place((config->Ok_0)@, username) is None {
        Some(AccountError::NotFound)
    } else if administrator_names((config->Ok_0)@).len() <= 1 {
        Some(AccountError::LastAdministrator)
    } else {
        None
    }
}

/// The configuration without that administrator.
pub open spec fn administrator_removed(c: ConfigurationView, username: Seq<char>) -> ConfigurationView {
    ConfigurationView { accounts: c.accounts.remove(administrator_place(c, username)->0), ..c }
}

/// Makes the configuration without an administrator. The last one stays.
pub fn remove_local_administrator(
    bootstrapped: bool,
    config: Result<IdentityConfiguration, String>,
    who: &Authentication,
    username: &str,
) -> (r: Result<IdentityConfiguration, AccountError>)
    ensures
        match r {
            Ok(c) => {
                &&& remove_error(bootstrapped, config, who@, username@) is None
                &&& c@ == administrator_removed((config->Ok_0)@, username@)
            },
            Err(e) => remove_error(bootstrapped, config, who@, username@) == Some(e),
        },
{
    let mut c = match let_in(bootstrapped, config, who) {
        Ok(c) => c,
        Err(e) => return Err(e),
    };
    let k = match administrator_index(&c, username) {
        Some(k) => k,
        None => return Err(AccountError::NotFound),
    };
    if local_names(&c).len() <= 1 {
        return Err(AccountError::LastAdministrator);
    }
    let ghost old_accounts = c.accounts@;
    let removed = c.accounts.remove(k);
    proof {
        assert(account_views(c.accounts@) == account_views(old_accounts).remove(k as int));
    }
    Ok(c)
}

// ---------------------------------------------------------------------------
// Tokens
// ---------------------------------------------------------------------------

/// Two hexadecimal digits for each byte.
pub open spec fn hex_digits(bytes: Seq<u8>) -> spec_fn(int) -> Seq<char> {
    |i: int| seq![digit_char((bytes[i] / 16) as nat), digit_char((bytes[i] % 16) as nat)]
}

/// The token of some random bytes.
pub fn random_token(random: &[u8]) -> (r: String)
    ensures
        r@ == text::concat(random@.len(), hex_digits(random@)),
{
    let ghost f = hex_digits(random@);
    let mut out = String::new();
    let mut i: usize = 0;
    while i < random.len()
        invariant
            f == hex_digits(random@),
            i <= random@.len(),
            out@ == text::concat(i as nat, f),
        decreases random@.len() - i,
    {
        let ghost before = out@;
        out.push(text::to_digit(random[i] / 16));
        out.push(text::to_digit(random[i] % 16));
        assert(out@ == before + f(i as int));
        i = i + 1;
    }
    out
}

// ---------------------------------------------------------------------------
// Laws
// ---------------------------------------------------------------------------

/// The first configuration can be relied on, and its account administers the
/// appliance.
pub proof fn law_first_configuration_is_well_formed(subject: Seq<char>, username: Seq<char>, hash: Seq<char>)
    requires
        subject.len() > 0,
        is_username(username),
        starts_with(hash, HASH_PREFIX@),
    ensures
        well_formed(first_configuration(subject, username, hash)),
        is_local_administrator(first_configuration(subject, username, hash).accounts[0]),
{
    let c = first_configuration(subject, username, hash);
    reveal_strlit("local");
    assert(c.sources[0] == LOCAL_SOURCE@);
    assert(source_rule(c.sources, 0));
    assert(c.sources.contains(c.sources[0]));
    assert(account_rule(c, 0));
}

/// Creating an account keeps a configuration well-formed, where its random
/// subject is a new one.
pub proof fn law_creation_keeps_the_configuration_well_formed(
    c: ConfigurationView,
    subject: Seq<char>,
    username: Seq<char>,
    hash: Seq<char>,
)
    requires
        well_formed(c),
        c.sources.contains(LOCAL_SOURCE@),
        find_account(c, LOCAL_SOURCE@, username) is None,
        is_username(username),
        subject.len() > 0,
        starts_with(hash, HASH_PREFIX@),
        forall|i: int|
            0 <= i < c.accounts.len() && (#[trigger] c.accounts[i]).source == LOCAL_SOURCE@
                ==> c.accounts[i].subject != subject,
    ensures
        well_formed(with_account(c, new_account(subject, username, hash))),
{
    let d = with_account(c, new_account(subject, username, hash));
    text::lemma_first_some_none(c.accounts.len(), account_named(c, LOCAL_SOURCE@, username));
    assert forall|i: int| 0 <= i < d.accounts.len() implies #[trigger] account_rule(d, i) by {
        if i < c.accounts.len() {
            assert(account_rule(c, i));
            assert(d.accounts[i] == c.accounts[i]);
            assert forall|j: int| 0 <= j < i implies apart(#[trigger] d.accounts[j], d.accounts[i]) by {
                assert(d.accounts[j] == c.accounts[j]);
            }
        } else {
            assert forall|j: int| 0 <= j < i implies apart(#[trigger] d.accounts[j], d.accounts[i]) by {
                assert(d.accounts[j] == c.accounts[j]);
                assert(account_named(c, LOCAL_SOURCE@, username)(j) is None);
            }
        }
    }
}

/// Changing a password keeps a configuration well-formed.
pub proof fn law_change_keeps_the_configuration_well_formed(
    c: ConfigurationView,
    username: Seq<char>,
    hash: Seq<char>,
)
    requires
        well_formed(c),
        administrator_place(c, username) is Some,
        c.accounts[administrator_place(c, username)->0].credential_version < u64::MAX,
        starts_with(hash, HASH_PREFIX@),
    ensures
        well_formed(password_changed(c, username, hash)),
{
    let k = administrator_place(c, username)->0;
    lemma_place(c, username, c.accounts.len());
    let d = password_changed(c, username, hash);
    assert forall|i: int| 0 <= i < d.accounts.len() implies #[trigger] account_rule(d, i) by {
        assert(account_rule(c, i));
        assert forall|j: int| 0 <= j < i implies apart(#[trigger] d.accounts[j], d.accounts[i]) by {
            assert(apart(c.accounts[j], c.accounts[i]));
        }
    }
}

/// Removing an account keeps a configuration well-formed.
pub proof fn law_removal_keeps_the_configuration_well_formed(c: ConfigurationView, username: Seq<char>)
    requires
        well_formed(c),
        administrator_place(c, username) is Some,
    ensures
        well_formed(administrator_removed(c, username)),
{
    let k = administrator_place(c, username)->0;
    lemma_place(c, username, c.accounts.len());
    let d = administrator_removed(c, username);
    assert forall|i: int| 0 <= i < d.accounts.len() implies #[trigger] account_rule(d, i) by {
        let x = if i < k {
            i
        } else {
            i + 1
        };
        assert(d.accounts[i] == c.accounts[x]);
        assert(account_rule(c, x));
        assert forall|j: int| 0 <= j < i implies apart(#[trigger] d.accounts[j], d.accounts[i]) by {
            let y = if j < k {
                j
            } else {
                j + 1
            };
            assert(d.accounts[j] == c.accounts[y]);
            assert(apart(c.accounts[y], c.accounts[x]));
        }
    }
}

/// Two accounts of a well-formed configuration with one source and subject are
/// one account.
proof fn lemma_one_account(c: ConfigurationView, i: int, j: int)
    requires
        well_formed(c),
        0 <= i < c.accounts.len(),
        0 <= j < c.accounts.len(),
        c.accounts[i].source == c.accounts[j].source,
        c.accounts[i].subject == c.accounts[j].subject,
    ensures
        i == j,
{
    assert(account_rule(c, i) && account_rule(c, j));
    if i < j {
        assert(apart(c.accounts[i], c.accounts[j]));
    }
    if j < i {
        assert(apart(c.accounts[j], c.accounts[i]));
    }
}

/// Changing a password takes the grant from whoever was authenticated by the
/// old one.
pub proof fn law_change_revokes_sessions(
    c: ConfigurationView,
    username: Seq<char>,
    hash: Seq<char>,
    who: AuthenticationView,
)
    requires
        well_formed(c),
        administrator_place(c, username) is Some,
        c.accounts[administrator_place(c, username)->0].credential_version < u64::MAX,
        grants(c.accounts[administrator_place(c, username)->0], who),
    ensures
        !authorized(password_changed(c, username, hash), who),
{
    let k = administrator_place(c, username)->0;
    lemma_place(c, username, c.accounts.len());
    let d = password_changed(c, username, hash);
    assert forall|i: int| 0 <= i < d.accounts.len() implies !grants(#[trigger] d.accounts[i], who) by {
        if i != k && grants(d.accounts[i], who) {
            lemma_one_account(c, i, k);
        }
    }
}

/// Removing an account takes its grant away.
pub proof fn law_removal_revokes_sessions(c: ConfigurationView, username: Seq<char>, who: AuthenticationView)
    requires
        well_formed(c),
        administrator_place(c, username) is Some,
        grants(c.accounts[administrator_place(c, username)->0], who),
    ensures
        !authorized(administrator_removed(c, username), who),
{
    let k = administrator_place(c, username)->0;
    lemma_place(c, username, c.accounts.len());
    let d = administrator_removed(c, username);
    assert forall|i: int| 0 <= i < d.accounts.len() implies !grants(#[trigger] d.accounts[i], who) by {
        let x = if i < k {
            i
        } else {
            i + 1
        };
        assert(d.accounts[i] == c.accounts[x]);
        if grants(d.accounts[i], who) {
            lemma_one_account(c, x, k);
        }
    }
}

/// Creating an administrator and removing them again gives back the accounts
/// that were there.
pub proof fn law_removal_undoes_creation(
    c: ConfigurationView,
    subject: Seq<char>,
    username: Seq<char>,
    hash: Seq<char>,
)
    requires
        find_account(c, LOCAL_SOURCE@, username) is None,
    ensures
        administrator_place(with_account(c, new_account(subject, username, hash)), username) is Some,
        administrator_removed(with_account(c, new_account(subject, username, hash)), username) == c,
{
    let d = with_account(c, new_account(subject, username, hash));
    let n = c.accounts.len();
    text::lemma_first_some_none(n, account_named(c, LOCAL_SOURCE@, username));
    lemma_place(d, username, n);
    match text::first_some(n, place_at(d, username)) {
        Some(k) => {
            assert(d.accounts[k] == c.accounts[k]);
            assert(account_named(c, LOCAL_SOURCE@, username)(k) is None);
        },
        None => {},
    }
    assert(d.accounts[n as int] == new_account(subject, username, hash));
    assert(administrator_place(d, username) == Some(n as int));
    assert(d.accounts.remove(n as int) == c.accounts);
}

/// Whoever was authenticated before their account was removed gets no grant
/// back where an account of the same name is made again, under a subject that
/// no account had.
pub proof fn law_recreation_grants_nothing_back(
    c: ConfigurationView,
    username: Seq<char>,
    who: AuthenticationView,
    subject: Seq<char>,
    hash: Seq<char>,
)
    requires
        well_formed(c),
        administrator_place(c, username) is Some,
        grants(c.accounts[administrator_place(c, username)->0], who),
        forall|i: int|
            0 <= i < c.accounts.len() && (#[trigger] c.accounts[i]).source == LOCAL_SOURCE@
                ==> c.accounts[i].subject != subject,
    ensures
        !authorized(
            with_account(administrator_removed(c, username), new_account(subject, username, hash)),
            who,
        ),
{
    let k = administrator_place(c, username)->0;
    lemma_place(c, username, c.accounts.len());
    let d = administrator_removed(c, username);
    let e = with_account(d, new_account(subject, username, hash));
    assert(c.accounts[k].subject != subject);
    assert forall|i: int| 0 <= i < e.accounts.len() implies !grants(#[trigger] e.accounts[i], who) by {
        if i < d.accounts.len() {
            let x = if i < k {
                i
            } else {
                i + 1
            };
            assert(e.accounts[i] == c.accounts[x]);
            if grants(e.accounts[i], who) {
                lemma_one_account(c, x, k);
            }
        }
    }
}

/// Requiring more than a password takes the grant from whoever gave no more.
pub proof fn law_raised_assurance_revokes_sessions(c: ConfigurationView, who: AuthenticationView)
    requires
        c.required_assurance == Assurance::MultiFactor,
        who.assurance == Assurance::Password,
    ensures
        !authorized(c, who),
{
}

/// A change or a removal leaves the grants of everybody else alone.
pub proof fn law_other_sessions_stay(
    c: ConfigurationView,
    username: Seq<char>,
    hash: Seq<char>,
    who: AuthenticationView,
)
    requires
        administrator_place(c, username) is Some,
        !grants(c.accounts[administrator_place(c, username)->0], who),
        authorized(c, who),
    ensures
        authorized(password_changed(c, username, hash), who),
        authorized(administrator_removed(c, username), who),
{
    let k = administrator_place(c, username)->0;
    lemma_place(c, username, c.accounts.len());
    let i = choose|i: int| 0 <= i < c.accounts.len() && grants(#[trigger] c.accounts[i], who);
    assert(password_changed(c, username, hash).accounts[i] == c.accounts[i]);
    let j = if i < k {
        i
    } else {
        i - 1
    };
    assert(administrator_removed(c, username).accounts[j] == c.accounts[i]);
}

/// The number of values collected drops by at most one when one index goes.
proof fn lemma_removed_names(c: ConfigurationView, d: ConfigurationView, k: int, n: nat)
    requires
        0 <= k < c.accounts.len(),
        d.accounts == c.accounts.remove(k),
        n <= d.accounts.len(),
    ensures
        n <= k ==> collect(n, administrator_at(d)) == collect(n, administrator_at(c)),
        n >= k ==> collect(n, administrator_at(d)).len() + 1 >= collect(
            n + 1,
            administrator_at(c),
        ).len(),
    decreases n,
{
    let f = administrator_at(c);
    let g = administrator_at(d);
    if n > 0 {
        lemma_removed_names(c, d, k, (n - 1) as nat);
        if n <= k {
            assert(d.accounts[n - 1] == c.accounts[n - 1]);
            assert(g(n - 1) == f(n - 1));
        } else {
            assert(d.accounts[n - 1] == c.accounts[n as int]);
            assert(g(n - 1) == f(n as int));
        }
    }
    if n == k {
        assert(collect(n + 1, f).len() <= collect(n, f).len() + 1);
    }
}

/// An administrator is left after every removal.
pub proof fn law_an_administrator_stays(c: ConfigurationView, username: Seq<char>)
    requires
        administrator_place(c, username) is Some,
        administrator_names(c).len() > 1,
    ensures
        administrator_names(administrator_removed(c, username)).len() >= 1,
{
    let k = administrator_place(c, username)->0;
    lemma_place(c, username, c.accounts.len());
    let d = administrator_removed(c, username);
    lemma_removed_names(c, d, k, d.accounts.len());
}

/// Whoever is authenticated is an account of the configuration, with its
/// current credentials, and administers the appliance just where that account
/// does.
pub proof fn law_authentication_is_current(
    c: ConfigurationView,
    source: Seq<char>,
    username: Seq<char>,
    password: Seq<char>,
    nobody: Option<Seq<char>>,
    candidate: Option<Seq<char>>,
    who: AuthenticationView,
)
    requires
        well_formed(c),
        authentication_outcome(true, Some(c), source, username, password, nobody, candidate)
            == ResultView::Authenticated(who),
    ensures
        find_account(c, source, username) is Some,
        candidate == Some((find_account(c, source, username)->0).password_hash),
        authorized(c, who) <==> (find_account(c, source, username)->0).administrator,
{
    let a = find_account(c, source, username)->0;
    let f = account_named(c, source, username);
    lemma_found_account(c, source, username, c.accounts.len());
    let k = choose|k: int|
        0 <= k < c.accounts.len() && #[trigger] c.accounts[k] == a && a.source == source && a.username
            == username;
    if a.administrator {
        assert(grants(c.accounts[k], who));
    }
    if authorized(c, who) {
        let i = choose|i: int| 0 <= i < c.accounts.len() && grants(#[trigger] c.accounts[i], who);
        lemma_one_account(c, i, k);
    }
}

proof fn lemma_found_account(c: ConfigurationView, source: Seq<char>, username: Seq<char>, n: nat)
    requires
        n <= c.accounts.len(),
        text::first_some(n, account_named(c, source, username)) is Some,
    ensures
        ({
            let a = text::first_some(n, account_named(c, source, username))->0;
            exists|k: int|
                0 <= k < n && #[trigger] c.accounts[k] == a && a.source == source && a.username == username
        }),
    decreases n,
{
    let f = account_named(c, source, username);
    if n > 0 {
        if text::first_some((n - 1) as nat, f) is Some {
            lemma_found_account(c, source, username, (n - 1) as nat);
        } else {
            assert(c.accounts[n - 1] == text::first_some(n, f)->0);
        }
    }
}

/// Nobody is authenticated on an appliance without an owner, without a
/// configuration, or under a name that it does not know.
pub proof fn law_authentication_fails_closed(
    bootstrapped: bool,
    config: Option<ConfigurationView>,
    source: Seq<char>,
    username: Seq<char>,
    password: Seq<char>,
    nobody: Option<Seq<char>>,
    candidate: Option<Seq<char>>,
)
    requires
        !bootstrapped || config is None || nobody is None || find_account(config->0, source, username) is None,
    ensures
        authentication_outcome(bootstrapped, config, source, username, password, nobody, candidate)
            == ResultView::Denied,
{
}

/// What a user name is, character by character.
pub proof fn law_usernames(s: Seq<char>)
    ensures
        is_username(s) <==> {
            &&& 1 <= s.len() <= 32
            &&& ('a' <= s[0] && s[0] <= 'z') || s[0] == '_'
            &&& forall|i: int|
                0 <= i < s.len() ==> {
                    let c = #[trigger] s[i];
                    ('a' <= c && c <= 'z') || ('0' <= c && c <= '9') || c == '_' || c == '-'
                }
            &&& s != "root"@
        },
{
    if is_username(s) {
        assert forall|i: int| 0 <= i < s.len() implies {
            let c = #[trigger] s[i];
            ('a' <= c && c <= 'z') || ('0' <= c && c <= '9') || c == '_' || c == '-'
        } by {
            if i > 0 {
                assert(username_char(s[i]));
            }
        }
    }
}

/// What a password is: at least one character, at most 511 bytes, and no
/// control character.
pub proof fn law_passwords(s: Seq<char>)
    ensures
        is_password(s) <==> {
            &&& s.len() >= 1
            &&& encode_utf8(s).len() <= 511
            &&& forall|i: int| 0 <= i < s.len() ==> (#[trigger] s[i]) as u32 >= 0x20 && s[i] as u32 != 0x7f
        },
{
    if is_password(s) {
        assert forall|i: int| 0 <= i < s.len() implies (#[trigger] s[i]) as u32 >= 0x20 && s[i] as u32 != 0x7f by {
            assert(!is_control(s[i]));
        }
    }
}

/// Who administers the appliance: whoever is one of its accounts, by source,
/// subject, name and current credentials, where that account is one of an
/// administrator and they have proved as much as is required.
pub proof fn law_grants(c: ConfigurationView, who: AuthenticationView)
    requires
        well_formed(c),
    ensures
        authorized(c, who) <==> {
            &&& c.required_assurance == Assurance::Password || who.assurance == Assurance::MultiFactor
            &&& exists|i: int|
                0 <= i < c.accounts.len() && (#[trigger] c.accounts[i]).administrator
                    && c.accounts[i].source == who.principal.source && c.accounts[i].subject
                    == who.principal.subject && c.accounts[i].username == who.principal.username
                    && c.accounts[i].credential_version == who.credential_version
        },
{
    assert forall|i: int| 0 <= i < c.accounts.len() implies c.sources.contains((#[trigger] c.accounts[i]).source) by {
        assert(account_rule(c, i));
    }
    if authorized(c, who) {
        let i = choose|i: int| 0 <= i < c.accounts.len() && grants(#[trigger] c.accounts[i], who);
        assert(c.accounts[i].administrator);
    } else if exists|i: int|
        0 <= i < c.accounts.len() && (#[trigger] c.accounts[i]).administrator && c.accounts[i].source
            == who.principal.source && c.accounts[i].subject == who.principal.subject
            && c.accounts[i].username == who.principal.username && c.accounts[i].credential_version
            == who.credential_version {
        let i = choose|i: int|
            0 <= i < c.accounts.len() && (#[trigger] c.accounts[i]).administrator && c.accounts[i].source
                == who.principal.source && c.accounts[i].subject == who.principal.subject
                && c.accounts[i].username == who.principal.username && c.accounts[i].credential_version
                == who.credential_version;
        assert(grants(c.accounts[i], who));
    }
}

/// In a well-formed configuration an account is found under its source and
/// name.
proof fn lemma_account_is_found(c: ConfigurationView, i: int)
    requires
        well_formed(c),
        0 <= i < c.accounts.len(),
    ensures
        find_account(c, c.accounts[i].source, c.accounts[i].username) == Some(c.accounts[i]),
        c.sources.contains(c.accounts[i].source),
{
    let a = c.accounts[i];
    let f = account_named(c, a.source, a.username);
    assert(account_rule(c, i));
    text::lemma_first_some_none(c.accounts.len(), f);
    assert(f(i) is Some);
    lemma_found_account(c, a.source, a.username, c.accounts.len());
    let b = find_account(c, a.source, a.username)->0;
    let k = choose|k: int|
        0 <= k < c.accounts.len() && #[trigger] c.accounts[k] == b && b.source == a.source && b.username
            == a.username;
    assert(account_rule(c, k));
    if k < i {
        assert(apart(c.accounts[k], c.accounts[i]));
    }
    if i < k {
        assert(apart(c.accounts[i], c.accounts[k]));
    }
}

/// Whoever gives the right password of an account is authenticated as that
/// account, with its current credentials, whatever they are; a wrong password
/// is denied; and where more than a password is required, that is asked for.
pub proof fn law_right_password_signs_in(
    c: ConfigurationView,
    i: int,
    password: Seq<char>,
    nobody: Seq<char>,
    candidate: Option<Seq<char>>,
)
    requires
        well_formed(c),
        0 <= i < c.accounts.len(),
        is_password(password),
    ensures
        ({
            let a = c.accounts[i];
            let outcome = authentication_outcome(
                true,
                Some(c),
                a.source,
                a.username,
                password,
                Some(nobody),
                candidate,
            );
            &&& hash_to_check(true, Some(c), a.source, a.username, password, Some(nobody)) == Some(a.password_hash)
            &&& candidate == Some(a.password_hash) && c.required_assurance == Assurance::Password ==> outcome
                == ResultView::Authenticated(
                AuthenticationView {
                    principal: PrincipalView { source: a.source, subject: a.subject, username: a.username },
                    assurance: Assurance::Password,
                    credential_version: a.credential_version,
                },
            )
            &&& candidate == Some(a.password_hash) && c.required_assurance == Assurance::MultiFactor ==> outcome
                == ResultView::Challenge(a.source, Assurance::MultiFactor)
            &&& candidate != Some(a.password_hash) ==> outcome == ResultView::Denied
        }),
{
    lemma_account_is_found(c, i);
}

/// A password that can be none is denied, and so is every password at a source
/// that is not configured.
pub proof fn law_malformed_attempts_are_denied(
    c: ConfigurationView,
    source: Seq<char>,
    username: Seq<char>,
    password: Seq<char>,
    nobody: Option<Seq<char>>,
    candidate: Option<Seq<char>>,
)
    requires
        !is_password(password) || !c.sources.contains(source),
    ensures
        authentication_outcome(true, Some(c), source, username, password, nobody, candidate) == ResultView::Denied,
        hash_to_check(true, Some(c), source, username, password, nobody) is None,
{
}

/// An unknown name is checked against a hash all the same, so that it takes as
/// long as a known one.
pub proof fn law_unknown_names_are_checked_too(
    c: ConfigurationView,
    source: Seq<char>,
    username: Seq<char>,
    password: Seq<char>,
    nobody: Seq<char>,
)
    requires
        c.sources.contains(source),
        is_password(password),
        forall|i: int|
            0 <= i < c.accounts.len() ==> (#[trigger] c.accounts[i]).source != source || c.accounts[i].username
                != username,
    ensures
        hash_to_check(true, Some(c), source, username, password, Some(nobody)) == Some(nobody),
{
    text::lemma_first_some_none(c.accounts.len(), account_named(c, source, username));
}

/// In a well-formed configuration a local administrator stands at the place
/// that is found for their name.
proof fn lemma_administrator_is_found(c: ConfigurationView, i: int)
    requires
        well_formed(c),
        0 <= i < c.accounts.len(),
        c.accounts[i].source == LOCAL_SOURCE@,
        c.accounts[i].administrator,
    ensures
        administrator_place(c, c.accounts[i].username) == Some(i),
{
    let name = c.accounts[i].username;
    lemma_place(c, name, c.accounts.len());
    match administrator_place(c, name) {
        Some(k) => {
            assert(account_rule(c, i) && account_rule(c, k));
            if k < i {
                assert(apart(c.accounts[k], c.accounts[i]));
            }
            if i < k {
                assert(apart(c.accounts[i], c.accounts[k]));
            }
        },
        None => {
            assert(is_local_administrator(c.accounts[i]));
        },
    }
}

/// Whoever changes a password can sign in with the new one, under the next
/// credentials, and no longer with another; everything else stays as it was.
pub proof fn law_new_password_signs_in(
    c: ConfigurationView,
    i: int,
    hash: Seq<char>,
    password: Seq<char>,
    nobody: Seq<char>,
    candidate: Option<Seq<char>>,
)
    requires
        well_formed(c),
        0 <= i < c.accounts.len(),
        c.accounts[i].source == "local"@,
        c.accounts[i].administrator,
        c.accounts[i].credential_version < u64::MAX,
        c.required_assurance == Assurance::Password,
        starts_with(hash, "$y$"@),
        is_password(password),
    ensures
        ({
            let a = c.accounts[i];
            let d = password_changed(c, a.username, hash);
            let outcome = authentication_outcome(
                true,
                Some(d),
                "local"@,
                a.username,
                password,
                Some(nobody),
                candidate,
            );
            &&& candidate == Some(hash) ==> (outcome matches ResultView::Authenticated(who) && who.principal
                == (PrincipalView { source: "local"@, subject: a.subject, username: a.username })
                && who.credential_version == a.credential_version + 1 && authorized(d, who))
            &&& candidate != Some(hash) ==> outcome == ResultView::Denied
            &&& d.accounts.len() == c.accounts.len()
            &&& d.sources == c.sources && d.required_assurance == c.required_assurance && d.version == c.version
            &&& forall|j: int| 0 <= j < c.accounts.len() && j != i ==> #[trigger] d.accounts[j] == c.accounts[j]
        }),
{
    let a = c.accounts[i];
    let d = password_changed(c, a.username, hash);
    lemma_administrator_is_found(c, i);
    law_change_keeps_the_configuration_well_formed(c, a.username, hash);
    assert(d.accounts[i] == with_password(a, hash));
    law_right_password_signs_in(d, i, password, nobody, candidate);
    assert(d.sources.contains("local"@)) by {
        assert(account_rule(c, i));
    }
    if candidate == Some(hash) {
        let who = AuthenticationView {
            principal: PrincipalView { source: "local"@, subject: a.subject, username: a.username },
            assurance: Assurance::Password,
            credential_version: (a.credential_version + 1) as u64,
        };
        assert(grants(d.accounts[i], who));
    }
}

/// A new administrator can sign in with the password that they were given, and
/// administers the appliance; all accounts that were there stay as they were.
pub proof fn law_new_administrator_signs_in(
    c: ConfigurationView,
    subject: Seq<char>,
    username: Seq<char>,
    hash: Seq<char>,
    password: Seq<char>,
    nobody: Seq<char>,
)
    requires
        well_formed(c),
        c.sources.contains("local"@),
        c.required_assurance == Assurance::Password,
        find_account(c, "local"@, username) is None,
        is_username(username),
        subject.len() > 0,
        starts_with(hash, "$y$"@),
        is_password(password),
        forall|i: int|
            0 <= i < c.accounts.len() && (#[trigger] c.accounts[i]).source == "local"@ ==> c.accounts[i].subject
                != subject,
    ensures
        ({
            let d = with_account(c, new_account(subject, username, hash));
            &&& authentication_outcome(true, Some(d), "local"@, username, password, Some(nobody), Some(hash))
                matches ResultView::Authenticated(who) && who.principal == (PrincipalView {
                source: "local"@,
                subject,
                username,
            }) && authorized(d, who)
            &&& d.accounts.len() == c.accounts.len() + 1
            &&& forall|j: int| 0 <= j < c.accounts.len() ==> #[trigger] d.accounts[j] == c.accounts[j]
        }),
{
    let d = with_account(c, new_account(subject, username, hash));
    let n = c.accounts.len() as int;
    law_creation_keeps_the_configuration_well_formed(c, subject, username, hash);
    assert(d.accounts[n] == new_account(subject, username, hash));
    law_right_password_signs_in(d, n, password, nobody, Some(hash));
    assert(grants(
        d.accounts[n],
        AuthenticationView {
            principal: PrincipalView { source: "local"@, subject, username },
            assurance: Assurance::Password,
            credential_version: d.accounts[n].credential_version,
        },
    ));
}

/// The administrator of the first configuration can sign in with the password
/// that they chose, and administers the appliance.
pub proof fn law_first_administrator_signs_in(
    subject: Seq<char>,
    username: Seq<char>,
    hash: Seq<char>,
    password: Seq<char>,
    nobody: Seq<char>,
)
    requires
        subject.len() > 0,
        is_username(username),
        starts_with(hash, "$y$"@),
        is_password(password),
    ensures
        ({
            let c = first_configuration(subject, username, hash);
            authentication_outcome(true, Some(c), "local"@, username, password, Some(nobody), Some(hash))
                matches ResultView::Authenticated(who) && who.principal == (PrincipalView {
                source: "local"@,
                subject,
                username,
            }) && authorized(c, who) && first_subject(c) == Some(subject)
        }),
{
    let c = first_configuration(subject, username, hash);
    law_first_configuration_is_well_formed(subject, username, hash);
    law_right_password_signs_in(c, 0, password, nobody, Some(hash));
    assert(c.accounts[0] == new_account(subject, username, hash));
    assert(c.sources[0] == LOCAL_SOURCE@);
    assert(grants(
        c.accounts[0],
        AuthenticationView {
            principal: PrincipalView { source: "local"@, subject, username },
            assurance: Assurance::Password,
            credential_version: c.accounts[0].credential_version,
        },
    ));
    reveal_with_fuel(text::first_some, 2);
}

/// An administrator of an appliance with an owner can create another one,
/// change the password of any, and remove any but the last; and nobody else
/// can do anything to accounts.
pub proof fn law_administrators_manage_accounts(
    config: IdentityConfiguration,
    who: AuthenticationView,
    i: int,
    username: Seq<char>,
    password: Seq<char>,
    subject: String,
    hash: String,
)
    requires
        well_formed(config@),
        0 <= i < config@.accounts.len(),
        config@.accounts[i].source == "local"@,
        config@.accounts[i].administrator,
        is_username(username),
        is_password(password),
    ensures
        ({
            let c = config@;
            let stored = Ok::<IdentityConfiguration, String>(config);
            let name = c.accounts[i].username;
            let (s, h) = (Ok::<String, String>(subject), Ok::<String, String>(hash));
            &&& authorized(c, who) && find_account(c, "local"@, username) is None ==> create_error(
                true,
                stored,
                who,
                username,
                password,
                s,
                h,
            ) is None
            &&& authorized(c, who) && c.accounts[i].credential_version < u64::MAX ==> change_error(
                true,
                stored,
                who,
                name,
                password,
                h,
            ) is None
            &&& authorized(c, who) && (exists|j: int|
                0 <= j < c.accounts.len() && j != i && (#[trigger] c.accounts[j]).source == "local"@
                    && c.accounts[j].administrator) ==> remove_error(true, stored, who, name) is None
            &&& !authorized(c, who) ==> create_error(true, stored, who, username, password, s, h) == Some(
                AccountError::Forbidden,
            ) && change_error(true, stored, who, name, password, h) == Some(AccountError::Forbidden)
                && remove_error(true, stored, who, name) == Some(AccountError::Forbidden)
            &&& create_error(false, stored, who, username, password, s, h) == Some(AccountError::Forbidden)
            &&& change_error(false, stored, who, name, password, h) == Some(AccountError::Forbidden)
            &&& remove_error(false, stored, who, name) == Some(AccountError::Forbidden)
        }),
{
    let c = config@;
    lemma_administrator_is_found(c, i);
    assert(account_rule(c, i));
    if exists|j: int|
        0 <= j < c.accounts.len() && j != i && (#[trigger] c.accounts[j]).source == "local"@
            && c.accounts[j].administrator {
        let j = choose|j: int|
            0 <= j < c.accounts.len() && j != i && (#[trigger] c.accounts[j]).source == "local"@
                && c.accounts[j].administrator;
        let (a, b) = if i < j {
            (i, j)
        } else {
            (j, i)
        };
        lemma_two_collected(c.accounts.len(), administrator_at(c), a, b);
    }
}

/// Two places that give something give two things.
proof fn lemma_two_collected<T>(n: nat, f: spec_fn(int) -> Option<T>, a: int, b: int)
    requires
        0 <= a < b < n,
        f(a) is Some,
        f(b) is Some,
    ensures
        collect(n, f).len() >= 2,
    decreases n,
{
    if b < n - 1 {
        lemma_two_collected((n - 1) as nat, f, a, b);
    } else {
        text::lemma_collects((n - 1) as nat, f, a);
        assert(collect((n - 1) as nat, f).len() >= 1);
    }
}

/// Every local administrator is listed, and nobody else.
pub proof fn law_every_administrator_is_listed(c: ConfigurationView, name: Seq<char>)
    ensures
        administrator_names(c).contains(name) <==> exists|i: int|
            0 <= i < c.accounts.len() && (#[trigger] c.accounts[i]).source == "local"@
                && c.accounts[i].administrator && c.accounts[i].username == name,
{
    let f = administrator_at(c);
    let n = c.accounts.len();
    if administrator_names(c).contains(name) {
        let e = choose|e: int| 0 <= e < administrator_names(c).len() && administrator_names(c)[e] == name;
        text::lemma_collected(n, f, e);
        let k = choose|k: int| 0 <= k < n && #[trigger] f(k) == Some(administrator_names(c)[e]);
        assert(c.accounts[k].source == "local"@ && c.accounts[k].administrator && c.accounts[k].username == name);
    }
    if exists|i: int|
        0 <= i < c.accounts.len() && (#[trigger] c.accounts[i]).source == "local"@ && c.accounts[i].administrator
            && c.accounts[i].username == name {
        let i = choose|i: int|
            0 <= i < c.accounts.len() && (#[trigger] c.accounts[i]).source == "local"@
                && c.accounts[i].administrator && c.accounts[i].username == name;
        text::lemma_collects(n, f, i);
    }
}

/// Different bytes give different tokens, and a token has two characters for
/// each byte.
pub proof fn law_tokens_differ(a: Seq<u8>, b: Seq<u8>)
    requires
        text::concat(a.len(), hex_digits(a)) == text::concat(b.len(), hex_digits(b)),
    ensures
        a == b,
        text::concat(a.len(), hex_digits(a)).len() == 2 * a.len(),
{
    text::lemma_concat_len(a.len(), hex_digits(a), 2);
    text::lemma_concat_len(b.len(), hex_digits(b), 2);
    assert forall|i: int| 0 <= i < a.len() implies a[i] == b[i] by {
        text::lemma_concat_even(a.len(), hex_digits(a), 2, i, 0);
        text::lemma_concat_even(a.len(), hex_digits(a), 2, i, 1);
        text::lemma_concat_even(b.len(), hex_digits(b), 2, i, 0);
        text::lemma_concat_even(b.len(), hex_digits(b), 2, i, 1);
        lemma_digits_differ((a[i] / 16) as nat, (b[i] / 16) as nat);
        lemma_digits_differ((a[i] % 16) as nat, (b[i] % 16) as nat);
    }
    assert(a =~= b);
}

proof fn lemma_digits_differ(x: nat, y: nat)
    requires
        x < 16,
        y < 16,
        digit_char(x) == digit_char(y),
    ensures
        x == y,
{
}

/// A configuration can be relied on just where it is of the first version, every
/// source has a name of its own, and every account belongs to a source, has a
/// subject and a name of its own there, a version of its password and a hash of
/// the accepted kind.
pub proof fn law_sound_configurations_are_relied_on(c: ConfigurationView)
    ensures
        configuration_error(c) is None <==> {
            &&& c.version == 1
            &&& forall|i: int| 0 <= i < c.sources.len() ==> (#[trigger] c.sources[i]).len() > 0
            &&& forall|i: int, j: int|
                0 <= i < j < c.sources.len() ==> #[trigger] c.sources[i] != #[trigger] c.sources[j]
            &&& forall|i: int| 0 <= i < c.accounts.len() ==> sound_account(c, #[trigger] c.accounts[i])
            &&& forall|i: int, j: int|
                0 <= i < j < c.accounts.len() && (#[trigger] c.accounts[i]).source == (#[trigger] c.accounts[j]).source
                    ==> c.accounts[i].subject != c.accounts[j].subject && c.accounts[i].username
                    != c.accounts[j].username
        },
{
    if sources_ok(c.sources) {
        assert forall|i: int| 0 <= i < c.sources.len() implies (#[trigger] c.sources[i]).len() > 0 by {
            assert(source_rule(c.sources, i));
        }
        assert forall|i: int, j: int| 0 <= i < j < c.sources.len() implies #[trigger] c.sources[i]
            != #[trigger] c.sources[j] by {
            assert(source_rule(c.sources, j));
        }
    }
    if accounts_ok(c) {
        assert forall|i: int| 0 <= i < c.accounts.len() implies sound_account(c, #[trigger] c.accounts[i]) by {
            assert(account_rule(c, i));
        }
        assert forall|i: int, j: int|
            0 <= i < j < c.accounts.len() && (#[trigger] c.accounts[i]).source == (#[trigger] c.accounts[j]).source implies
            c.accounts[i].subject != c.accounts[j].subject && c.accounts[i].username != c.accounts[j].username by {
            assert(account_rule(c, j));
            assert(apart(c.accounts[i], c.accounts[j]));
        }
    }
}

/// Whether an account belongs to a source of the configuration and has what an
/// account needs.
pub open spec fn sound_account(c: ConfigurationView, a: AccountView) -> bool {
    &&& exists|k: int| 0 <= k < c.sources.len() && #[trigger] c.sources[k] == a.source
    &&& a.subject.len() > 0
    &&& is_username(a.username)
    &&& a.credential_version >= 1
    &&& starts_with(a.password_hash, "$y$"@)
}

/// The first administrator is the first local account that is one.
pub proof fn law_first_administrator_is_known(c: ConfigurationView, i: int)
    requires
        0 <= i <= c.accounts.len(),
        forall|j: int|
            0 <= j < i ==> !((#[trigger] c.accounts[j]).source == "local"@ && c.accounts[j].administrator),
    ensures
        i < c.accounts.len() && c.accounts[i].source == "local"@ && c.accounts[i].administrator ==> first_subject(c)
            == Some(c.accounts[i].subject),
        i == c.accounts.len() ==> first_subject(c) is None,
{
    let f = |k: int|
        if is_local_administrator(c.accounts[k]) {
            Some(c.accounts[k].subject)
        } else {
            None
        };
    assert forall|j: int| 0 <= j < i implies #[trigger] f(j) is None by {
        assert(!(c.accounts[j].source == "local"@ && c.accounts[j].administrator));
    }
    assert(first_subject(c) == text::first_some(c.accounts.len(), f));
    if i < c.accounts.len() && c.accounts[i].source == "local"@ && c.accounts[i].administrator {
        text::lemma_first_some_is(c.accounts.len(), f, i);
    }
    if i == c.accounts.len() {
        text::lemma_first_some_none(c.accounts.len(), f);
    }
}

/// A password is enough just where no more is required; more is always enough.
pub proof fn law_assurance(required: Assurance)
    ensures
        assures(Assurance::Password, required) <==> required == Assurance::Password,
        assures(Assurance::MultiFactor, required),
{
}

} // verus!
