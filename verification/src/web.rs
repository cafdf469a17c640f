//! What the web interface answers: its routes, its sessions, and the forms of
//! login and first set-up.

use crate::apply::{add_time, later, lemma_reply_keys, principal_json, principal_value};
use crate::bootstrap;
use crate::bootstrap::{form_desired, form_error, is_hostname, Bootstrap};
use crate::commands::{request_kind, work_of, ReceivedView, WorkView};
use crate::documents::{lossy, lossy_text};
use crate::http::{
    find_header, header, header_views, Content, ContentView, HttpRequest, HttpResponse, RequestView,
    ResponseView,
};
use crate::identity;
use crate::identity::{
    is_password, is_username, Assurance, Authentication, AuthenticationResult, AuthenticationView,
    ResultView,
};
use crate::ip::IpAddr;
use crate::json;
use crate::json::{json_document, lemma_list_view, list_view, text_or_null, Json, JsonView};
use crate::reports::{done, error_reply, json_list, not_done, ok_reply};
use crate::text;
use crate::text::{
    before, begins, collect, decimal, ends, ends_with, head, is_hex, lemma_collect_only,
    lemma_collect_two, lemma_collects, lemma_split_once, lower, lowered, occurs, parts, print, same,
    split, split_once, starts_with, str_opt, text_opt, texts, trim, trimmed,
};
use vstd::prelude::*;

verus! {

// ---------------------------------------------------------------------------
// Responses
// ---------------------------------------------------------------------------

/// A response that holds a value.
pub open spec fn value_response(status: u16, v: JsonView) -> ResponseView {
    ResponseView {
        status,
        ctype: "application/json; charset=utf-8"@,
        content: ContentView::Value(v),
        stamp: false,
        headers: Seq::empty(),
    }
}

/// A response that holds a few words.
pub open spec fn words_response(status: u16, bytes: Seq<u8>) -> ResponseView {
    ResponseView {
        status,
        ctype: "text/plain; charset=utf-8"@,
        content: ContentView::Bytes(bytes),
        stamp: false,
        headers: Seq::empty(),
    }
}

/// `not found`, in ASCII.
pub open spec fn not_found() -> Seq<u8> {
    seq![110, 111, 116, 32, 102, 111, 117, 110, 100]
}

/// `method not allowed`, in ASCII.
pub open spec fn not_allowed() -> Seq<u8> {
    seq![109, 101, 116, 104, 111, 100, 32, 110, 111, 116, 32, 97, 108, 108, 111, 119, 101, 100]
}

/// A response that holds a value.
pub fn json_response(status: u16, v: Json) -> (r: HttpResponse)
    ensures
        r@ == value_response(status, v@),
        r.headers@.len() == 0,
{
    let headers: Vec<(String, String)> = Vec::new();
    assert(header_views(headers@) == Seq::<(Seq<char>, Seq<char>)>::empty());
    HttpResponse {
        status,
        ctype: "application/json; charset=utf-8",
        content: Content::Value(v),
        stamp: false,
        headers,
    }
}

fn plain_response(status: u16, bytes: Vec<u8>) -> (r: HttpResponse)
    ensures
        r@ == words_response(status, bytes@),
{
    let headers: Vec<(String, String)> = Vec::new();
    assert(header_views(headers@) == Seq::<(Seq<char>, Seq<char>)>::empty());
    HttpResponse {
        status,
        ctype: "text/plain; charset=utf-8",
        content: Content::Bytes(bytes),
        stamp: false,
        headers,
    }
}

fn not_found_response() -> (r: HttpResponse)
    ensures
        r@ == words_response(404, not_found()),
{
    let b: Vec<u8> = vec![110, 111, 116, 32, 102, 111, 117, 110, 100];
    assert(b@ == not_found());
    plain_response(404, b)
}

fn not_allowed_response() -> (r: HttpResponse)
    ensures
        r@ == words_response(405, not_allowed()),
{
    let b: Vec<u8> = vec![
        109, 101, 116, 104, 111, 100, 32, 110, 111, 116, 32, 97, 108, 108, 111, 119, 101, 100,
    ];
    assert(b@ == not_allowed());
    plain_response(405, b)
}

// ---------------------------------------------------------------------------
// Files
// ---------------------------------------------------------------------------

/// The type of a file.
pub open spec fn mime_of(name: Seq<char>) -> Seq<char> {
    if ends_with(name, ".js"@) {
        "application/javascript; charset=utf-8"@
    } else {
        "text/html; charset=utf-8"@
    }
}

/// The type of a file.
pub fn mime(name: &str) -> (r: &'static str)
    ensures
        r@ == mime_of(name@),
{
    if ends(name, ".js") {
        "application/javascript; charset=utf-8"
    } else {
        "text/html; charset=utf-8"
    }
}

/// Whether a name can be that of a file of the web interface: it leads to no
/// other directory.
pub open spec fn is_file_name(name: Seq<char>) -> bool {
    !occurs(name, ".."@) && !name.contains('/') && !name.contains('\\')
}

/// Whether a name can be that of a file of the web interface.
pub fn file_name(name: &str) -> (r: bool)
    ensures
        r == is_file_name(name@),
{
    !text::holds(name, "..") && !text::has_char(name, '/') && !text::has_char(name, '\\')
}

/// The response to a request for a file, where `content` is what was read of
/// it.
pub fn static_response(name: &str, content: Option<Vec<u8>>) -> (r: HttpResponse)
    ensures
        r@ == match content {
            Some(b) => ResponseView {
                status: 200,
                ctype: mime_of(name@),
                content: ContentView::Bytes(b@),
                stamp: false,
                headers: Seq::empty(),
            },
            None => words_response(404, not_found()),
        },
{
    match content {
        Some(b) => {
            let headers: Vec<(String, String)> = Vec::new();
            assert(header_views(headers@) == Seq::<(Seq<char>, Seq<char>)>::empty());
            HttpResponse {
                status: 200,
                ctype: mime(name),
                content: Content::Bytes(b),
                stamp: false,
                headers,
            }
        },
        None => not_found_response(),
    }
}

// ---------------------------------------------------------------------------
// Where a request comes from
// ---------------------------------------------------------------------------

/// Whether a request holds JSON and comes from a page of the appliance.
pub open spec fn is_same_origin_json(q: RequestView) -> bool {
    &&& match header(q.headers, "content-type"@) {
        Some(v) => lower(trim(before(v, ';'))) == "application/json"@,
        None => false,
    }
    &&& match header(q.headers, "origin"@) {
        Some(origin) => match header(q.headers, "host"@) {
            Some(host) => origin == "https://"@ + host,
            None => false,
        },
        None => true,
    }
    &&& header(q.headers, "sec-fetch-site"@) != Some("cross-site"@)
}

/// Whether a request holds JSON and comes from a page of the appliance.
pub fn same_origin_json(q: &HttpRequest) -> (r: bool)
    ensures
        r == is_same_origin_json(q@),
{
    let is_json = match find_header(&q.headers, "content-type") {
        Some(v) => {
            let kind = lowered(trimmed(head(v, ';').as_str()).as_str());
            same(kind.as_str(), "application/json")
        },
        None => false,
    };
    let origin_matches = match find_header(&q.headers, "origin") {
        Some(origin) => match find_header(&q.headers, "host") {
            Some(host) => {
                let own = "https://".to_owned().concat(host);
                same(origin, own.as_str())
            },
            None => false,
        },
        None => true,
    };
    let cross = match find_header(&q.headers, "sec-fetch-site") {
        Some(site) => same(site, "cross-site"),
        None => false,
    };
    is_json && origin_matches && !cross
}

/// The name of the cookie that holds the token of a session.
pub const SESSION_COOKIE: &'static str = "__Host-fwos";

/// The number of characters of a token.
pub const TOKEN_LEN: usize = 64;

/// Whether a text can be a token.
pub open spec fn is_token(s: Seq<char>) -> bool {
    s.len() == TOKEN_LEN && forall|i: int| 0 <= i < s.len() ==> is_hex(#[trigger] s[i])
}

/// The token that one cookie holds, if it does.
pub open spec fn cookie_token(cookies: Seq<Seq<char>>) -> spec_fn(int) -> Option<Seq<char>> {
    |i: int|
        match split_once(trim(cookies[i]), '=') {
            Some((name, value)) => if name == SESSION_COOKIE@ && is_token(value) {
                Some(value)
            } else {
                None
            },
            None => None,
        }
}

/// The token of a request: that of the only cookie that holds one.
pub open spec fn token_of(q: RequestView) -> Option<Seq<char>> {
    match header(q.headers, "cookie"@) {
        None => None,
        Some(c) => {
            let cookies = split(c, ';');
            let tokens = collect(cookies.len(), cookie_token(cookies));
            if tokens.len() == 1 {
                Some(tokens[0])
            } else {
                None
            }
        },
    }
}

fn hex(c: char) -> (r: bool)
    ensures
        r == is_hex(c),
{
    ('0' <= c && c <= '9') || ('a' <= c && c <= 'f') || ('A' <= c && c <= 'F')
}

fn can_be_token(s: &str) -> (r: bool)
    ensures
        r == is_token(s@),
{
    let v = text::chars_of(s);
    if v.len() != TOKEN_LEN {
        return false;
    }
    let mut i: usize = 0;
    while i < v.len()
        invariant
            v@ == s@,
            i <= v@.len(),
            forall|j: int| 0 <= j < i ==> is_hex(#[trigger] s@[j]),
        decreases v@.len() - i,
    {
        assert(v@[i as int] == s@[i as int]);
        if !hex(v[i]) {
            return false;
        }
        i = i + 1;
    }
    true
}

fn token_in(cookie: &str) -> (r: Option<String>)
    ensures
        text_opt(r) == cookie_token(seq![cookie@])(0),
{
    let t = trimmed(cookie);
    match text::cut(t.as_str(), '=') {
        Some((name, value)) => if same(name.as_str(), SESSION_COOKIE) && can_be_token(value.as_str()) {
            Some(value)
        } else {
            None
        },
        None => None,
    }
}

/// The token of a request.
pub fn session_token(q: &HttpRequest) -> (r: Option<String>)
    ensures
        text_opt(r) == token_of(q@),
{
    let c = match find_header(&q.headers, "cookie") {
        Some(c) => c,
        None => return None,
    };
    let cookies = parts(c, ';');
    let ghost t = texts(cookies@);
    let ghost f = cookie_token(t);
    let mut tokens: Vec<String> = Vec::new();
    let mut i: usize = 0;
    assert(texts(tokens@) == collect(0, f));
    while i < cookies.len()
        invariant
            t == texts(cookies@),
            f == cookie_token(t),
            i <= cookies@.len(),
            texts(tokens@) == collect(i as nat, f),
        decreases cookies@.len() - i,
    {
        assert(t[i as int] == cookies@[i as int]@);
        let found = token_in(cookies[i].as_str());
        assert(text_opt(found) == f(i as int));
        if let Some(token) = found {
            text::add_text(&mut tokens, token);
        }
        i = i + 1;
    }
    if tokens.len() == 1 {
        assert(texts(tokens@)[0] == tokens@[0]@);
        Some(tokens[0].clone())
    } else {
        None
    }
}

// ---------------------------------------------------------------------------
// Sessions
// ---------------------------------------------------------------------------

/// How long a session lasts, in milliseconds.
pub const SESSION_LIFETIME_MS: u64 = 1_800_000;

/// The most sessions at a time.
pub const MAX_SESSIONS: usize = 1024;

/// One session.
pub struct Session {
    pub token: String,
    pub authentication: Authentication,
    pub expires: u64,
}

#[verifier::ext_equal]
pub struct SessionView {
    pub token: Seq<char>,
    pub authentication: AuthenticationView,
    pub expires: u64,
}

impl View for Session {
    type V = SessionView;

    open spec fn view(&self) -> SessionView {
        SessionView {
            token: self.token@,
            authentication: self.authentication@,
            expires: self.expires,
        }
    }
}

/// The sessions.
pub struct Sessions {
    entries: Vec<Session>,
}

impl View for Sessions {
    type V = Seq<SessionView>;

    closed spec fn view(&self) -> Seq<SessionView> {
        Seq::new(self.entries@.len(), |i: int| self.entries@[i]@)
    }
}

pub open spec fn live_at(v: Seq<SessionView>, now: u64) -> spec_fn(int) -> Option<SessionView> {
    |i: int|
        if v[i].expires > now {
            Some(v[i])
        } else {
            None
        }
}

/// The sessions that have not expired.
pub open spec fn live(v: Seq<SessionView>, now: u64) -> Seq<SessionView> {
    collect(v.len(), live_at(v, now))
}

pub open spec fn other_at(v: Seq<SessionView>, token: Seq<char>) -> spec_fn(int) -> Option<SessionView> {
    |i: int|
        if v[i].token != token {
            Some(v[i])
        } else {
            None
        }
}

/// The sessions with another token.
pub open spec fn without(v: Seq<SessionView>, token: Seq<char>) -> Seq<SessionView> {
    collect(v.len(), other_at(v, token))
}

pub open spec fn without_opt(v: Seq<SessionView>, token: Option<Seq<char>>) -> Seq<SessionView> {
    match token {
        Some(t) => without(v, t),
        None => v,
    }
}

pub open spec fn with_token(v: Seq<SessionView>, token: Seq<char>) -> spec_fn(int) -> Option<
    AuthenticationView,
> {
    |i: int|
        if v[i].token == token {
            Some(v[i].authentication)
        } else {
            None
        }
}

/// Who a token is of.
pub open spec fn session_of(v: Seq<SessionView>, token: Seq<char>) -> Option<AuthenticationView> {
    text::first_some(v.len(), with_token(v, token))
}

pub open spec fn auth_opt(a: Option<Authentication>) -> Option<AuthenticationView> {
    match a {
        Some(x) => Some(x@),
        None => None,
    }
}

impl Sessions {
    /// No sessions.
    pub fn new() -> (r: Sessions)
        ensures
            r@ == Seq::<SessionView>::empty(),
    {
        let r = Sessions { entries: Vec::new() };
        assert(r@ == Seq::<SessionView>::empty());
        r
    }

    fn len(&self) -> (r: usize)
        ensures
            r == self@.len(),
    {
        self.entries.len()
    }

    fn copy(s: &Session) -> (r: Session)
        ensures
            r@ == s@,
    {
        Session {
            token: s.token.clone(),
            authentication: s.authentication.clone(),
            expires: s.expires,
        }
    }

    /// Takes away the sessions that have expired.
    fn purge(&mut self, now: u64)
        ensures
            final(self)@ == live(old(self)@, now),
    {
        let ghost v = self@;
        let ghost f = live_at(v, now);
        let mut kept = Sessions { entries: Vec::new() };
        let mut i: usize = 0;
        assert(kept@ == collect(0, f));
        while i < self.entries.len()
            invariant
                v == self@,
                f == live_at(v, now),
                i <= self.entries@.len(),
                kept@ == collect(i as nat, f),
            decreases self.entries@.len() - i,
        {
            assert(v[i as int] == self.entries@[i as int]@);
            if self.entries[i].expires > now {
                let ghost k0 = kept@;
                kept.entries.push(Sessions::copy(&self.entries[i]));
                assert(kept@ == k0.push(v[i as int]));
            }
            i = i + 1;
        }
        *self = kept;
    }

    /// Ends the session with a token, if there is one.
    fn remove(&mut self, token: &str)
        ensures
            final(self)@ == without(old(self)@, token@),
    {
        let ghost v = self@;
        let ghost f = other_at(v, token@);
        let mut kept = Sessions { entries: Vec::new() };
        let mut i: usize = 0;
        assert(kept@ == collect(0, f));
        while i < self.entries.len()
            invariant
                v == self@,
                f == other_at(v, token@),
                i <= self.entries@.len(),
                kept@ == collect(i as nat, f),
            decreases self.entries@.len() - i,
        {
            assert(v[i as int] == self.entries@[i as int]@);
            if !same(self.entries[i].token.as_str(), token) {
                let ghost k0 = kept@;
                kept.entries.push(Sessions::copy(&self.entries[i]));
                assert(kept@ == k0.push(v[i as int]));
            }
            i = i + 1;
        }
        *self = kept;
    }

    fn find(&self, token: &str) -> (r: Option<Authentication>)
        ensures
            auth_opt(r) == session_of(self@, token@),
    {
        let ghost v = self@;
        let ghost f = with_token(v, token@);
        let mut i: usize = 0;
        while i < self.entries.len()
            invariant
                v == self@,
                v.len() == self.entries@.len(),
                f == with_token(v, token@),
                i <= self.entries@.len(),
                text::first_some(i as nat, f) is None,
            decreases self.entries@.len() - i,
        {
            assert(v[i as int] == self.entries@[i as int]@);
            if same(self.entries[i].token.as_str(), token) {
                proof {
                    text::lemma_first_some((i + 1) as nat, v.len(), f);
                }
                return Some(self.entries[i].authentication.clone());
            }
            i = i + 1;
        }
        None
    }

    /// Who the token of a request is of; a session that has expired counts no
    /// longer.
    pub fn authenticated(&mut self, token: &Option<String>, now: u64) -> (r: Option<Authentication>)
        ensures
            match text_opt(*token) {
                Some(t) => final(self)@ == live(old(self)@, now) && auth_opt(r) == session_of(
                    live(old(self)@, now),
                    t,
                ),
                None => final(self)@ == old(self)@ && r is None,
            },
    {
        match token {
            Some(t) => {
                self.purge(now);
                self.find(t.as_str())
            },
            None => None,
        }
    }
}

// ---------------------------------------------------------------------------
// Login and logout
// ---------------------------------------------------------------------------

/// The response to a login that is not tried: what was sent is no login, or
/// another one is being tried.
pub open spec fn login_refusal(readable: bool, busy: bool) -> Option<ResponseView> {
    if !readable {
        Some(value_response(400, not_done("invalid login request"@)))
    } else if busy {
        Some(value_response(429, not_done("login busy; retry shortly"@)))
    } else {
        None
    }
}

/// The response to a login that is not tried.
pub fn refuse_login(readable: bool, busy: bool) -> (r: Option<HttpResponse>)
    ensures
        match r {
            Some(x) => login_refusal(readable, busy) == Some(x@),
            None => login_refusal(readable, busy) is None,
        },
{
    if !readable {
        Some(json_response(400, error_reply("invalid login request")))
    } else if busy {
        Some(json_response(429, error_reply("login busy; retry shortly")))
    } else {
        None
    }
}

pub open spec fn assurance_text(a: Assurance) -> Seq<char> {
    match a {
        Assurance::Password => "password"@,
        Assurance::MultiFactor => "multi_factor"@,
    }
}

pub open spec fn challenge_json(source: Seq<char>, required: Assurance) -> JsonView {
    JsonView::object().with("source"@, JsonView::Text(source)).with(
        "required_assurance"@,
        JsonView::Text(assurance_text(required)),
    )
}

/// The cookie of a session that begins.
pub open spec fn session_cookie(token: Seq<char>) -> Seq<char> {
    SESSION_COOKIE@ + "="@ + token + "; Path=/; Secure; HttpOnly; SameSite=Strict; Max-Age="@ + decimal(
        (SESSION_LIFETIME_MS / 1000) as nat,
    )
}

/// The cookie of a session that ends.
pub open spec fn ended_cookie() -> Seq<char> {
    SESSION_COOKIE@ + "=; Path=/; Secure; HttpOnly; SameSite=Strict; Max-Age=0"@
}

pub open spec fn with_cookie(r: ResponseView, cookie: Seq<char>) -> ResponseView {
    ResponseView { headers: r.headers.push(("Set-Cookie"@, cookie)), ..r }
}

/// What a login comes to: the sessions after it, and the response. `authorized`
/// says whether who was authenticated is an administrator, `previous` is the
/// token of the request.
pub open spec fn login_outcome(
    v: Seq<SessionView>,
    previous: Option<Seq<char>>,
    result: ResultView,
    authorized: bool,
    token: Option<Seq<char>>,
    now: u64,
) -> (Seq<SessionView>, ResponseView) {
    match result {
        ResultView::Challenge(source, required) => (
            v,
            value_response(
                403,
                JsonView::object().with("ok"@, JsonView::Bool(false)).with(
                    "challenge"@,
                    challenge_json(source, required),
                ).with("error"@, JsonView::Text("additional authentication required"@)),
            ),
        ),
        ResultView::Authenticated(who) if authorized => match token {
            None => (v, value_response(503, not_done("login unavailable"@))),
            Some(t) => {
                let left = without_opt(live(v, now), previous);
                if left.len() >= MAX_SESSIONS {
                    (left, value_response(503, not_done("session capacity reached"@)))
                } else {
                    (
                        without(left, t).push(
                            SessionView {
                                token: t,
                                authentication: who,
                                expires: later(now, SESSION_LIFETIME_MS),
                            },
                        ),
                        with_cookie(
                            value_response(
                                200,
                                done().with("principal"@, principal_json(Some(who.principal))),
                            ),
                            session_cookie(t),
                        ),
                    )
                }
            },
        },
        _ => (v, value_response(401, not_done("login failed"@))),
    }
}

fn set_cookie(r: HttpResponse, cookie: String) -> (n: HttpResponse)
    ensures
        n@ == with_cookie(r@, cookie@),
{
    let mut n = r;
    let ghost h0 = n.headers@;
    n.headers.push(("Set-Cookie".to_owned(), cookie));
    assert(header_views(n.headers@) == header_views(h0).push(("Set-Cookie"@, cookie@)));
    n
}

/// What a login comes to.
pub fn login(
    sessions: &mut Sessions,
    previous: &Option<String>,
    result: AuthenticationResult,
    authorized: bool,
    token: Result<String, String>,
    now: u64,
) -> (r: HttpResponse)
    ensures
        (final(sessions)@, r@) == login_outcome(
            old(sessions)@,
            text_opt(*previous),
            result@,
            authorized,
            match token {
                Ok(t) => Some(t@),
                Err(_) => None,
            },
            now,
        ),
{
    match result {
        AuthenticationResult::Challenge(c) => {
            let required = match c.required_assurance {
                Assurance::Password => "password",
                Assurance::MultiFactor => "multi_factor",
            };
            let challenge = Json::object().with("source", Json::text(c.source.as_str())).with(
                "required_assurance",
                Json::text(required),
            );
            json_response(
                403,
                Json::object().with("ok", Json::Bool(false)).with("challenge", challenge).with(
                    "error",
                    Json::text("additional authentication required"),
                ),
            )
        },
        AuthenticationResult::Denied => json_response(401, error_reply("login failed")),
        AuthenticationResult::Authenticated(who) => {
            if !authorized {
                return json_response(401, error_reply("login failed"));
            }
            let token = match token {
                Ok(t) => t,
                Err(_) => return json_response(503, error_reply("login unavailable")),
            };
            sessions.purge(now);
            if let Some(p) = previous {
                sessions.remove(p.as_str());
            }
            if sessions.len() >= MAX_SESSIONS {
                return json_response(503, error_reply("session capacity reached"));
            }
            sessions.remove(token.as_str());
            let principal = principal_value(&Some(who.who().clone()));
            let seconds = print(SESSION_LIFETIME_MS / 1000);
            let cookie = SESSION_COOKIE.to_owned().concat("=").concat(token.as_str()).concat(
                "; Path=/; Secure; HttpOnly; SameSite=Strict; Max-Age=",
            ).concat(seconds.as_str());
            let ghost left = sessions@;
            let ghost view = who@;
            sessions.entries.push(
                Session { token, authentication: who, expires: add_time(now, SESSION_LIFETIME_MS) },
            );
            assert(sessions@ == left.push(
                SessionView {
                    token: token@,
                    authentication: view,
                    expires: later(now, SESSION_LIFETIME_MS),
                },
            ));
            let r = json_response(200, ok_reply().with("principal", principal));
            set_cookie(r, cookie)
        },
    }
}

/// Ends the session of a request.
pub fn logout(sessions: &mut Sessions, token: &Option<String>) -> (r: HttpResponse)
    ensures
        final(sessions)@ == without_opt(old(sessions)@, text_opt(*token)),
        r@ == with_cookie(value_response(200, done()), ended_cookie()),
{
    if let Some(t) = token {
        sessions.remove(t.as_str());
    }
    let cookie = SESSION_COOKIE.to_owned().concat(
        "=; Path=/; Secure; HttpOnly; SameSite=Strict; Max-Age=0",
    );
    set_cookie(json_response(200, ok_reply()), cookie)
}

// ---------------------------------------------------------------------------
// Routes
// ---------------------------------------------------------------------------

/// What is done about a request.
pub enum Route {
    /// It is answered at once.
    Respond(HttpResponse),
    /// Send a file.
    File(&'static str),
    /// Tell how the appliance is.
    Status,
    Login,
    Logout,
    Bootstrap,
}

pub enum RouteView {
    Respond(ResponseView),
    File(Seq<char>),
    Status,
    Login,
    Logout,
    Bootstrap,
}

impl View for Route {
    type V = RouteView;

    open spec fn view(&self) -> RouteView {
        match self {
            Route::Respond(r) => RouteView::Respond(r@),
            Route::File(s) => RouteView::File(s@),
            Route::Status => RouteView::Status,
            Route::Login => RouteView::Login,
            Route::Logout => RouteView::Logout,
            Route::Bootstrap => RouteView::Bootstrap,
        }
    }
}

/// Whether a path is one of the calls rather than a page.
pub open spec fn is_call(path: Seq<char>) -> bool {
    starts_with(path, "/api/"@)
}

/// Whether a request has to come from an administrator who is logged in: every
/// call but login and first set-up, once there is an owner.
pub open spec fn needs_login(path: Seq<char>, bootstrapped: bool) -> bool {
    is_call(path) && path != "/api/bootstrap"@ && path != "/api/login"@ && (bootstrapped || path
        == "/api/logout"@)
}

/// What is done about a request that is let in.
pub open spec fn route_of(method: Seq<char>, path: Seq<char>) -> RouteView {
    if method == "GET"@ {
        if path == "/"@ || path == "/index.html"@ {
            RouteView::File("index.html"@)
        } else if path == "/app.js"@ {
            RouteView::File("app.js"@)
        } else if path == "/api/status"@ {
            RouteView::Status
        } else if is_call(path) {
            RouteView::Respond(value_response(404, not_done("not found"@)))
        } else {
            RouteView::Respond(words_response(404, not_found()))
        }
    } else if method == "POST"@ {
        if path == "/api/login"@ {
            RouteView::Login
        } else if path == "/api/logout"@ {
            RouteView::Logout
        } else if path == "/api/bootstrap"@ {
            RouteView::Bootstrap
        } else {
            RouteView::Respond(value_response(404, not_done("not found"@)))
        }
    } else {
        RouteView::Respond(words_response(405, not_allowed()))
    }
}

/// What is done about a request.
pub open spec fn dispatched(q: RequestView, bootstrapped: bool, authenticated: bool) -> RouteView {
    let path = before(q.path, '?');
    if q.method == "POST"@ && is_call(path) && !is_same_origin_json(q) {
        RouteView::Respond(value_response(403, not_done("same-origin JSON required"@)))
    } else if needs_login(path, bootstrapped) && !authenticated {
        RouteView::Respond(
            value_response(
                401,
                JsonView::object().with("ok"@, JsonView::Bool(false)).with(
                    "bootstrapped"@,
                    JsonView::Bool(bootstrapped),
                ).with("error"@, JsonView::Text("sign in required"@)),
            ),
        )
    } else {
        route_of(q.method, path)
    }
}

fn route(method: &str, path: &str) -> (r: Route)
    ensures
        r@ == route_of(method@, path@),
{
    if same(method, "GET") {
        if same(path, "/") || same(path, "/index.html") {
            Route::File("index.html")
        } else if same(path, "/app.js") {
            Route::File("app.js")
        } else if same(path, "/api/status") {
            Route::Status
        } else if begins(path, "/api/") {
            Route::Respond(json_response(404, error_reply("not found")))
        } else {
            Route::Respond(not_found_response())
        }
    } else if same(method, "POST") {
        if same(path, "/api/login") {
            Route::Login
        } else if same(path, "/api/logout") {
            Route::Logout
        } else if same(path, "/api/bootstrap") {
            Route::Bootstrap
        } else {
            Route::Respond(json_response(404, error_reply("not found")))
        }
    } else {
        Route::Respond(not_allowed_response())
    }
}

/// What is done about a request: `authenticated` says whether it comes from an
/// administrator who is logged in.
pub fn dispatch(q: &HttpRequest, bootstrapped: bool, authenticated: bool) -> (r: Route)
    ensures
        r@ == dispatched(q@, bootstrapped, authenticated),
{
    let path = head(q.path.as_str(), '?');
    let path = path.as_str();
    let call = begins(path, "/api/");
    if same(q.method.as_str(), "POST") && call && !same_origin_json(q) {
        return Route::Respond(json_response(403, error_reply("same-origin JSON required")));
    }
    if call && !same(path, "/api/bootstrap") && !same(path, "/api/login") && (bootstrapped || same(
        path,
        "/api/logout",
    )) && !authenticated {
        return Route::Respond(
            json_response(
                401,
                Json::object().with("ok", Json::Bool(false)).with(
                    "bootstrapped",
                    Json::Bool(bootstrapped),
                ).with("error", Json::text("sign in required")),
            ),
        );
    }
    route(q.method.as_str(), path)
}

// ---------------------------------------------------------------------------
// First set-up
// ---------------------------------------------------------------------------

/// The response to a form that nothing is done about.
pub open spec fn setup_refusal(bootstrapped: bool, form: Result<Bootstrap, String>) -> Option<ResponseView> {
    if bootstrapped {
        Some(value_response(409, not_done("already bootstrapped"@)))
    } else {
        match form {
            Err(e) => Some(value_response(400, not_done(e@))),
            Ok(b) => if !is_hostname(trim(b.hostname@)) {
                Some(value_response(400, not_done("invalid hostname"@)))
            } else if !is_username(trim(b.admin@)) {
                Some(value_response(400, not_done("invalid admin"@)))
            } else if !is_password(b.password@) {
                Some(
                    value_response(
                        400,
                        not_done(
                            "password must contain 1–1024 bytes without ASCII control characters"@,
                        ),
                    ),
                )
            } else if b.interfaces@.len() == 0 {
                Some(value_response(400, not_done("missing interfaces"@)))
            } else {
                match form_error(b) {
                    Some(e) => Some(value_response(400, not_done(e))),
                    None => None,
                }
            },
        }
    }
}

/// What is to be set up: the hostname is kept, the administrator is created,
/// and the state is applied, one after the other.
pub struct Setup {
    pub hostname: String,
    pub admin: String,
    pub password: String,
    pub desired: Json,
}

/// What is to be set up, or the response where nothing is.
pub fn bootstrap(bootstrapped: bool, form: Result<Bootstrap, String>) -> (r: Result<Setup, HttpResponse>)
    ensures
        match r {
            Err(x) => setup_refusal(bootstrapped, form) == Some(x@),
            Ok(s) => {
                &&& setup_refusal(bootstrapped, form) is None
                &&& s.hostname@ == trim((form->Ok_0).hostname@)
                &&& s.admin@ == trim((form->Ok_0).admin@)
                &&& s.password@ == (form->Ok_0).password@
                &&& s.desired@ == form_desired(form->Ok_0)
            },
        },
{
    if bootstrapped {
        return Err(json_response(409, error_reply("already bootstrapped")));
    }
    let b = match form {
        Ok(b) => b,
        Err(e) => return Err(json_response(400, error_reply(e.as_str()))),
    };
    let hostname = trimmed(b.hostname.as_str());
    let admin = trimmed(b.admin.as_str());
    if !bootstrap::valid_hostname(hostname.as_str()) {
        return Err(json_response(400, error_reply("invalid hostname")));
    }
    if !identity::valid_username(admin.as_str()) {
        return Err(json_response(400, error_reply("invalid admin")));
    }
    if !identity::valid_password(b.password.as_str()) {
        return Err(
            json_response(
                400,
                error_reply("password must contain 1–1024 bytes without ASCII control characters"),
            ),
        );
    }
    if b.interfaces.len() == 0 {
        return Err(json_response(400, error_reply("missing interfaces")));
    }
    if let Err(e) = bootstrap::validate_bootstrap(&b) {
        return Err(json_response(400, error_reply(e.as_str())));
    }
    let desired = bootstrap::desired_value(&b);
    Ok(Setup { hostname, admin, password: b.password, desired })
}

/// The response to a set-up, where the network daemon gave that reply, or none.
pub open spec fn setup_response(reply: Result<JsonView, Seq<char>>) -> ResponseView {
    match reply {
        Ok(v) => if v.bool_member("ok"@) == Some(true) {
            ResponseView { stamp: true, ..value_response(200, done()) }
        } else {
            value_response(502, v)
        },
        Err(e) => value_response(502, not_done(e)),
    }
}

/// The response to a set-up: an error is also one of the steps before.
pub fn bootstrap_response(reply: Result<Json, String>) -> (r: HttpResponse)
    ensures
        r@ == setup_response(
            match reply {
                Ok(v) => Ok(v@),
                Err(e) => Err(e@),
            },
        ),
{
    match reply {
        Ok(v) => {
            let ok = match v.bool_member("ok") {
                Some(b) => b,
                None => false,
            };
            if ok {
                let r = json_response(200, ok_reply());
                HttpResponse { stamp: true, ..r }
            } else {
                json_response(502, v)
            }
        },
        Err(e) => json_response(502, error_reply(e.as_str())),
    }
}

/// Whether a request has to wait for others like it: of those who set the
/// appliance up, one is served at a time.
pub fn takes_turns(q: &HttpRequest) -> (r: bool)
    ensures
        r == (q@.method == "POST"@ && before(q@.path, '?') == "/api/bootstrap"@),
{
    same(q.method.as_str(), "POST") && same(head(q.path.as_str(), '?').as_str(), "/api/bootstrap")
}

/// What the network daemon is asked at a set-up: to make that administrator the
/// owner, and to apply the state that the form asks for.
pub open spec fn setup_command(subject: Seq<char>, desired: JsonView) -> JsonView {
    JsonView::object().with("op"@, JsonView::Text("bootstrap_apply"@)).with(
        "admin_subject"@,
        JsonView::Text(subject),
    ).with("desired"@, desired)
}

/// What the network daemon is asked at a set-up.
pub fn setup_request(subject: &str, desired: Json) -> (r: Json)
    ensures
        r@ == setup_command(subject@, desired@),
{
    Json::object().with("op", Json::text("bootstrap_apply")).with("admin_subject", Json::text(subject)).with(
        "desired",
        desired,
    )
}

/// Before the appliance has an owner, the network daemon takes the request of a
/// set-up as the command to give it one, and finds the administrator and the
/// state in it.
pub proof fn law_set_up_is_understood(subject: Seq<char>, desired: JsonView, recovering: bool)
    ensures
        request_kind(Ok(setup_command(subject, desired)), false) == ReceivedView::Command(
            setup_command(subject, desired),
        ),
        work_of(setup_command(subject, desired), false, recovering) == WorkView::Bootstrap,
        setup_command(subject, desired).text_member("admin_subject"@) == Some(subject),
        setup_command(subject, desired).member("desired"@) == Some(desired),
{
    reveal_strlit("op");
    reveal_strlit("admin_subject");
    reveal_strlit("desired");
    reveal_strlit("bootstrap_apply");
    reveal_strlit("list");
    reveal_strlit("opt");
    assert("op"@.len() == 2 && "admin_subject"@.len() == 13 && "desired"@.len() == 7);
    assert("bootstrap_apply"@.len() == 15 && "list"@.len() == 4 && "opt"@.len() == 3);
    assert(setup_command(subject, desired).member("op"@) == Some(JsonView::Text("bootstrap_apply"@)));
}

/// What the network daemon replied to a set-up: bytes that are no reply are
/// told as its error.
pub open spec fn setup_reply(document: Result<JsonView, Seq<char>>, raw: Seq<char>) -> JsonView {
    match document {
        Ok(v) => v,
        Err(_) => not_done(raw),
    }
}

/// What the network daemon replied to a set-up.
pub fn netd_apply(reply: &[u8]) -> (r: Json)
    ensures
        r@ == setup_reply(json_document(reply@), lossy_text(reply@)),
{
    match json::parse(reply) {
        Ok(v) => v,
        Err(_) => error_reply(lossy(reply).as_str()),
    }
}

/// What the network daemon replied to a command.
pub fn netd_cmd(reply: &[u8]) -> (r: Result<Json, String>)
    ensures
        match r {
            Ok(v) => json_document(reply@) == Ok::<JsonView, Seq<char>>(v@),
            Err(e) => json_document(reply@) matches Err(x) && e@ == "parse netd reply: "@ + x,
        },
{
    match json::parse(reply) {
        Ok(v) => Ok(v),
        Err(e) => Err("parse netd reply: ".to_owned().concat(e.as_str())),
    }
}

// ---------------------------------------------------------------------------
// Status
// ---------------------------------------------------------------------------

/// The hostname that is kept, where it is more than white space.
pub open spec fn kept_hostname(file: Option<Seq<char>>) -> Option<Seq<char>> {
    match file {
        Some(s) => if trim(s).len() > 0 {
            Some(trim(s))
        } else {
            None
        },
        None => None,
    }
}

/// The hostname that is kept.
pub fn read_hostname(file: &Option<String>) -> (r: Option<String>)
    ensures
        text_opt(r) == kept_hostname(text_opt(*file)),
{
    match file {
        Some(s) => {
            let t = trimmed(s.as_str());
            if t.as_str().is_empty() {
                None
            } else {
                Some(t)
            }
        },
        None => None,
    }
}

/// The hostname that is kept, else the one of the state.
pub open spec fn shown_hostname(file: Option<Seq<char>>, desired: JsonView) -> Option<Seq<char>> {
    match kept_hostname(file) {
        Some(h) => Some(h),
        None => desired.text_member("hostname"@),
    }
}

/// The hostname that is kept, else the one of the state.
pub fn show_hostname(file: &Option<String>, desired: &Json) -> (r: Option<String>)
    ensures
        text_opt(r) == shown_hostname(text_opt(*file), desired@),
{
    match read_hostname(file) {
        Some(h) => Some(h),
        None => match desired.text_member("hostname") {
            Some(s) => Some(s.to_owned()),
            None => None,
        },
    }
}

/// One more member, where there is such a one.
pub open spec fn with_member(v: JsonView, from: JsonView, key: Seq<char>) -> JsonView {
    match from.member(key) {
        Some(x) => v.with(key, x),
        None => v,
    }
}

fn copy_member(v: Json, from: &Json, key: &str) -> (r: Json)
    requires
        v is Object,
    ensures
        r@ == with_member(v@, from@, key@),
        r is Object,
{
    match from.get(key) {
        Some(x) => v.with(key, x.clone()),
        None => v,
    }
}

/// What is shown of an interface.
pub open spec fn shown_iface(i: JsonView) -> JsonView {
    let a = with_member(JsonView::object(), i, "name"@);
    let b = with_member(a, i, "role"@);
    let c = with_member(b, i, "vlan"@);
    let d = with_member(c, i, "parent"@);
    let e = with_member(d, i, "addresses"@);
    if i.bool_member("dhcp"@) == Some(true) {
        e.with("dhcp"@, JsonView::Bool(true))
    } else {
        e
    }
}

fn show_iface(i: &Json) -> (r: Json)
    ensures
        r@ == shown_iface(i@),
{
    let v = copy_member(Json::object(), i, "name");
    let v = copy_member(v, i, "role");
    let v = copy_member(v, i, "vlan");
    let v = copy_member(v, i, "parent");
    let v = copy_member(v, i, "addresses");
    let dhcp = match i.bool_member("dhcp") {
        Some(b) => b,
        None => false,
    };
    if dhcp {
        v.with("dhcp", Json::Bool(true))
    } else {
        v
    }
}

/// What is shown of the interfaces of a state.
pub open spec fn shown_ifaces(desired: JsonView) -> JsonView {
    match desired.member("interfaces"@) {
        Some(JsonView::List(l)) => json_list(l.len(), |i: int| shown_iface(l[i])),
        _ => JsonView::List(Seq::empty()),
    }
}

fn show_ifaces(desired: &Json) -> (r: Json)
    ensures
        r@ == shown_ifaces(desired@),
{
    let mut out: Vec<Json> = Vec::new();
    if let Some(v) = desired.get("interfaces") {
        if let Some(l) = v.as_list() {
            proof {
                lemma_list_view(l@);
            }
            let ghost w = list_view(l@);
            let mut i: usize = 0;
            while i < l.len()
                invariant
                    w == list_view(l@),
                    w.len() == l@.len(),
                    forall|j: int| 0 <= j < l@.len() ==> #[trigger] w[j] == l@[j]@,
                    i <= l@.len(),
                    out@.len() == i,
                    forall|j: int| 0 <= j < i ==> (#[trigger] out@[j])@ == shown_iface(w[j]),
                decreases l@.len() - i,
            {
                assert(w[i as int] == l@[i as int]@);
                out.push(show_iface(&l[i]));
                i = i + 1;
            }
            proof {
                lemma_list_view(out@);
                assert(list_view(out@) == Seq::new(w.len(), |i: int| shown_iface(w[i])));
            }
            return Json::List(out);
        }
    }
    assert(list_view(out@) == Seq::<JsonView>::empty());
    Json::List(out)
}

/// The NICs that the network daemon tells, or none.
pub open spec fn told_nics(reply: Option<JsonView>) -> JsonView {
    match reply {
        Some(v) => match v.member("nics"@) {
            Some(JsonView::List(l)) => JsonView::List(l),
            _ => JsonView::List(Seq::empty()),
        },
        None => JsonView::List(Seq::empty()),
    }
}

pub open spec fn json_opt(v: Option<Json>) -> Option<JsonView> {
    match v {
        Some(x) => Some(x@),
        None => None,
    }
}

/// The NICs that the network daemon tells, or none.
pub fn list_nics(reply: &Option<Json>) -> (r: Json)
    ensures
        r@ == told_nics(json_opt(*reply)),
{
    let none: Vec<Json> = Vec::new();
    assert(list_view(none@) == Seq::<JsonView>::empty());
    match reply {
        Some(v) => match v.get("nics") {
            Some(l) => if l.as_list().is_some() {
                l.clone()
            } else {
                Json::List(none)
            },
            None => Json::List(none),
        },
        None => Json::List(none),
    }
}

/// How the appliance is; `desired` is the state that is kept, or null.
pub open spec fn status_of(
    bootstrapped: bool,
    hostname: Option<Seq<char>>,
    nics: JsonView,
    desired: JsonView,
) -> JsonView {
    JsonView::object().with("bootstrapped"@, JsonView::Bool(bootstrapped)).with(
        "hostname"@,
        text_or_null(shown_hostname(hostname, desired)),
    ).with("nics"@, nics).with("interfaces"@, shown_ifaces(desired)).with(
        "ui_exposure"@,
        match desired.member("ui_exposure"@) {
            Some(v) => v,
            None => JsonView::List(Seq::empty()),
        },
    ).with("lan_prefix"@, text_or_null(desired.text_member("lan_prefix"@))).with(
        "dhcp_pool"@,
        text_or_null(desired.text_member("dhcp_pool"@)),
    ).with("wan_pd"@, text_or_null(desired.text_member("wan_pd"@)))
}

fn text_value(s: Option<&str>) -> (r: Json)
    ensures
        r@ == text_or_null(str_opt(s)),
{
    match s {
        Some(x) => Json::text(x),
        None => Json::Null,
    }
}

/// How the appliance is: `hostname` is what the file of the hostname holds,
/// `desired` the state that is kept, or null.
pub fn status_json(bootstrapped: bool, hostname: &Option<String>, nics: Json, desired: &Json) -> (r: Json)
    ensures
        r@ == status_of(bootstrapped, text_opt(*hostname), nics@, desired@),
        r is Object,
{
    let exposure = match desired.get("ui_exposure") {
        Some(v) => v.clone(),
        None => {
            let none: Vec<Json> = Vec::new();
            assert(list_view(none@) == Seq::<JsonView>::empty());
            Json::List(none)
        },
    };
    Json::object().with("bootstrapped", Json::Bool(bootstrapped)).with(
        "hostname",
        Json::text_or_null(&show_hostname(hostname, desired)),
    ).with("nics", nics).with("interfaces", show_ifaces(desired)).with("ui_exposure", exposure).with(
        "lan_prefix",
        text_value(desired.text_member("lan_prefix")),
    ).with("dhcp_pool", text_value(desired.text_member("dhcp_pool"))).with(
        "wan_pd",
        text_value(desired.text_member("wan_pd")),
    )
}

/// The response to a question for how the appliance is, to whoever asks.
pub fn status_response(status: Json, who: &Option<Authentication>) -> (r: HttpResponse)
    requires
        status is Object,
    ensures
        r@ == value_response(
            200,
            match auth_opt(*who) {
                Some(a) => status@.with("principal"@, principal_json(Some(a.principal))),
                None => status@,
            },
        ),
{
    match who {
        Some(a) => {
            let principal = principal_value(&Some(a.who().clone()));
            json_response(200, status.with("principal", principal))
        },
        None => json_response(200, status),
    }
}

// ---------------------------------------------------------------------------
// Where it listens
// ---------------------------------------------------------------------------

/// An address to listen at.
#[derive(Clone, Copy, Debug)]
pub struct BindAddr {
    pub ip: IpAddr,
    pub scope: u32,
}

/// Every address of the namespace, of either family: what the firewall sends
/// on from outside arrives at one of them.
pub fn wildcard_bind_addrs() -> (r: Vec<BindAddr>)
    ensures
        r@ == seq![
            BindAddr { ip: IpAddr::V4(0), scope: 0 },
            BindAddr { ip: IpAddr::V6(0), scope: 0 },
        ],
{
    let r = vec![BindAddr { ip: IpAddr::V4(0), scope: 0 }, BindAddr { ip: IpAddr::V6(0), scope: 0 }];
    assert(r@ == seq![
        BindAddr { ip: IpAddr::V4(0), scope: 0 },
        BindAddr { ip: IpAddr::V6(0), scope: 0 },
    ]);
    r
}

/// An address to listen at, with the port.
pub open spec fn bind_text(a: BindAddr) -> Seq<char> {
    match a.ip {
        IpAddr::V4(x) => crate::ip::text_v4(x) + ":443"@,
        IpAddr::V6(x) => if a.scope != 0 {
            "["@ + crate::ip::text_v6(x) + "%"@ + decimal(a.scope as nat) + "]:443"@
        } else {
            "["@ + crate::ip::text_v6(x) + "]:443"@
        },
    }
}

/// An address to listen at, with the port.
pub fn show_bind(a: &BindAddr) -> (r: String)
    ensures
        r@ == bind_text(*a),
{
    match a.ip {
        IpAddr::V4(x) => crate::ip::write_v4(x).concat(":443"),
        IpAddr::V6(x) => {
            let s = "[".to_owned().concat(crate::ip::write_v6(x).as_str());
            if a.scope != 0 {
                s.concat("%").concat(print(a.scope as u64).as_str()).concat("]:443")
            } else {
                s.concat("]:443")
            }
        },
    }
}

// ---------------------------------------------------------------------------
// Laws
// ---------------------------------------------------------------------------

/// Once there is an owner, no call but login and first set-up is let in from
/// anyone who is not logged in: it is answered that they have to be; and
/// logging out asks for that at any time.
pub proof fn law_calls_need_a_login(q: RequestView, bootstrapped: bool)
    ensures
        needs_login(before(q.path, '?'), bootstrapped) ==> (dispatched(q, bootstrapped, false)
            matches RouteView::Respond(r) && (r.status == 401 || r.status == 403)),
        bootstrapped ==> !(dispatched(q, bootstrapped, false) is Status),
        !(dispatched(q, bootstrapped, false) is Logout),
{
    reveal_strlit("/api/status");
    reveal_strlit("/api/logout");
    reveal_strlit("/api/login");
    reveal_strlit("/api/bootstrap");
    reveal_strlit("/api/");
    assert("/api/status"@.len() == 11 && "/api/logout"@.len() == 11 && "/api/login"@.len() == 10
        && "/api/bootstrap"@.len() == 14 && "/api/"@.len() == 5);
    assert("/api/status"@.take(5) =~= "/api/"@);
    assert("/api/logout"@.take(5) =~= "/api/"@);
    assert("/api/status"@[5] == 's' && "/api/logout"@[5] == 'l');
}

/// Nothing is changed at the word of another site: whoever logs in or out or
/// sets up does so from a page of the appliance.
pub proof fn law_changes_come_from_the_appliance(q: RequestView, bootstrapped: bool, authenticated: bool)
    ensures
        dispatched(q, bootstrapped, authenticated) is Login ==> is_same_origin_json(q),
        dispatched(q, bootstrapped, authenticated) is Logout ==> is_same_origin_json(q),
        dispatched(q, bootstrapped, authenticated) is Bootstrap ==> is_same_origin_json(q),
{
    reveal_strlit("/api/logout");
    reveal_strlit("/api/login");
    reveal_strlit("/api/bootstrap");
    reveal_strlit("/api/");
    assert("/api/logout"@.take(5) =~= "/api/"@);
    assert("/api/login"@.take(5) =~= "/api/"@);
    assert("/api/bootstrap"@.take(5) =~= "/api/"@);
}

/// The session of a login is known by its token until it expires, and by then
/// no longer.
pub proof fn law_session_lasts(
    v: Seq<SessionView>,
    previous: Option<Seq<char>>,
    result: ResultView,
    token: Seq<char>,
    now: u64,
    then: u64,
)
    requires
        login_outcome(v, previous, result, true, Some(token), now).1.status == 200,
    ensures
        result matches ResultView::Authenticated(who) && ({
            let after = login_outcome(v, previous, result, true, Some(token), now).0;
            session_of(live(after, then), token) == if then < later(now, SESSION_LIFETIME_MS) {
                Some(who)
            } else {
                None
            }
        }),
{
    let after = login_outcome(v, previous, result, true, Some(token), now).0;
    let left = without(without_opt(live(v, now), previous), token);
    let last = after.last();
    assert(after == left.push(last));
    lemma_without(without_opt(live(v, now), previous), token);
    let f = live_at(after, then);
    lemma_live(after, then);
    let kept = live(after, then);
    let g = with_token(kept, token);
    if then < last.expires {
        // The new session is the last of those that are left, and the only
        // one with its token.
        assert(kept == collect(left.len(), f).push(last));
        lemma_prefix(after, then, left.len());
        assert forall|i: int| 0 <= i < kept.len() - 1 implies #[trigger] g(i) is None by {
            assert(kept[i] == collect(left.len(), f)[i]);
            assert(kept[i].token != token);
        }
        text::lemma_first_some_none((kept.len() - 1) as nat, g);
        assert(g(kept.len() - 1) == Some(last.authentication));
    } else {
        assert(kept == collect(left.len(), f));
        lemma_prefix(after, then, left.len());
        assert forall|i: int| 0 <= i < kept.len() implies #[trigger] g(i) is None by {
            assert(kept[i].token != token);
        }
        text::lemma_first_some_none(kept.len(), g);
    }
}

proof fn lemma_without(v: Seq<SessionView>, token: Seq<char>)
    ensures
        forall|i: int| 0 <= i < without(v, token).len() ==> (#[trigger] without(v, token)[i]).token != token,
{
    lemma_without_up_to(v, token, v.len());
}

proof fn lemma_without_up_to(v: Seq<SessionView>, token: Seq<char>, n: nat)
    requires
        n <= v.len(),
    ensures
        forall|i: int|
            0 <= i < collect(n, other_at(v, token)).len() ==> (#[trigger] collect(
                n,
                other_at(v, token),
            )[i]).token != token,
    decreases n,
{
    if n > 0 {
        lemma_without_up_to(v, token, (n - 1) as nat);
    }
}

proof fn lemma_live(v: Seq<SessionView>, now: u64)
    ensures
        forall|i: int| 0 <= i < live(v, now).len() ==> (#[trigger] live(v, now)[i]).expires > now,
{
    lemma_live_up_to(v, now, v.len());
}

proof fn lemma_live_up_to(v: Seq<SessionView>, now: u64, n: nat)
    requires
        n <= v.len(),
    ensures
        forall|i: int|
            0 <= i < collect(n, live_at(v, now)).len() ==> (#[trigger] collect(n, live_at(v, now))[i]).expires
                > now,
    decreases n,
{
    if n > 0 {
        lemma_live_up_to(v, now, (n - 1) as nat);
    }
}

/// Those that are left of the first `n` are among the first `n`.
proof fn lemma_prefix(v: Seq<SessionView>, now: u64, n: nat)
    requires
        n <= v.len(),
    ensures
        forall|i: int|
            0 <= i < collect(n, live_at(v, now)).len() ==> exists|j: int|
                0 <= j < n && v[j] == #[trigger] collect(n, live_at(v, now))[i],
    decreases n,
{
    if n > 0 {
        lemma_prefix(v, now, (n - 1) as nat);
        let f = live_at(v, now);
        let c = collect(n, f);
        let d = collect((n - 1) as nat, f);
        assert forall|i: int| 0 <= i < c.len() implies exists|j: int|
            0 <= j < n && v[j] == #[trigger] c[i] by {
            if i < d.len() {
                assert(c[i] == d[i]);
            } else {
                assert(v[n - 1] == c[i]);
            }
        }
    }
}

/// A session that has expired counts no longer, whatever its token.
pub proof fn law_expired_sessions_do_not_count(v: Seq<SessionView>, now: u64, i: int)
    requires
        0 <= i < live(v, now).len(),
    ensures
        live(v, now)[i].expires > now,
{
    lemma_live(v, now);
}

/// After a logout nobody is known by its token.
pub proof fn law_logout_ends_the_session(v: Seq<SessionView>, token: Seq<char>)
    ensures
        session_of(without(v, token), token) is None,
{
    lemma_without(v, token);
    let w = without(v, token);
    let g = with_token(w, token);
    assert forall|i: int| 0 <= i < w.len() implies #[trigger] g(i) is None by {
        assert(w[i].token != token);
    }
    text::lemma_first_some_none(w.len(), g);
}

/// There are never more sessions than the limit.
pub proof fn law_sessions_are_limited(
    v: Seq<SessionView>,
    previous: Option<Seq<char>>,
    result: ResultView,
    authorized: bool,
    token: Option<Seq<char>>,
    now: u64,
)
    requires
        v.len() <= MAX_SESSIONS,
    ensures
        login_outcome(v, previous, result, authorized, token, now).0.len() <= MAX_SESSIONS,
{
    lemma_collect_len(v.len(), live_at(v, now));
    let a = live(v, now);
    if previous is Some {
        lemma_collect_len(a.len(), other_at(a, previous->0));
    }
    let b = without_opt(a, previous);
    if token is Some {
        lemma_collect_len(b.len(), other_at(b, token->0));
    }
}

proof fn lemma_collect_len(n: nat, f: spec_fn(int) -> Option<SessionView>)
    ensures
        collect(n, f).len() <= n,
    decreases n,
{
    if n > 0 {
        lemma_collect_len((n - 1) as nat, f);
    }
}

/// Nobody is logged in who is not an administrator, or who has yet to prove
/// more.
pub proof fn law_login_needs_an_administrator(
    v: Seq<SessionView>,
    previous: Option<Seq<char>>,
    result: ResultView,
    token: Option<Seq<char>>,
    now: u64,
)
    ensures
        login_outcome(v, previous, result, false, token, now).0 == v,
        login_outcome(v, previous, result, false, token, now).1.status != 200,
        !(result is Authenticated) ==> login_outcome(v, previous, result, true, token, now).0 == v
            && login_outcome(v, previous, result, true, token, now).1.status != 200,
{
}

/// Ownership is recorded only at the word of the network daemon that the
/// set-up is done.
pub proof fn law_stamp_follows_the_reply(reply: Result<JsonView, Seq<char>>)
    requires
        setup_response(reply).stamp,
    ensures
        reply matches Ok(v) && v.bool_member("ok"@) == Some(true),
{
}

/// The only files that a request leads to are those of the web interface.
pub proof fn law_files_are_named_plainly(q: RequestView, bootstrapped: bool, authenticated: bool)
    ensures
        dispatched(q, bootstrapped, authenticated) matches RouteView::File(name) ==> is_file_name(name),
{
    reveal_strlit("index.html");
    reveal_strlit("app.js");
    reveal_strlit("..");
    let a = "index.html"@;
    let b = "app.js"@;
    let p = ".."@;
    assert(p.len() == 2 && p[0] == '.' && p[1] == '.');
    assert forall|i: int| !text::occurs_at(a, p, i) by {
        if text::occurs_at(a, p, i) {
            assert(a.subrange(i, i + 2)[0] == a[i] && a.subrange(i, i + 2)[1] == a[i + 1]);
        }
    }
    assert forall|i: int| !text::occurs_at(b, p, i) by {
        if text::occurs_at(b, p, i) {
            assert(b.subrange(i, i + 2)[0] == b[i] && b.subrange(i, i + 2)[1] == b[i + 1]);
        }
    }
}

// ---------------------------------------------------------------------------
// What is let in
// ---------------------------------------------------------------------------

/// An administrator who proved who they are is logged in while there is room:
/// the response says so and holds the cookie of the session, which lasts half an
/// hour and is known by its token; and all who were logged in otherwise stay so.
pub proof fn law_administrator_is_logged_in(
    v: Seq<SessionView>,
    previous: Option<Seq<char>>,
    who: AuthenticationView,
    token: Seq<char>,
    now: u64,
    i: int,
)
    requires
        live(v, now).len() < 1024,
        0 <= i < v.len(),
    ensures
        ({
            let (after, r) = login_outcome(v, previous, ResultView::Authenticated(who), true, Some(token), now);
            &&& r.status == 200
            &&& r.headers == seq![
                (
                    "Set-Cookie"@,
                    "__Host-fwos"@ + "="@ + token + "; Path=/; Secure; HttpOnly; SameSite=Strict; Max-Age="@
                        + decimal(1800),
                ),
            ]
            &&& r.content matches ContentView::Value(j) && j.member("ok"@) == Some(JsonView::Bool(true)) && j.member(
                "principal"@,
            ) == Some(principal_json(Some(who.principal)))
            &&& after.contains(
                SessionView {
                    token,
                    authentication: who,
                    expires: if now + 1_800_000 <= u64::MAX {
                        (now + 1_800_000) as u64
                    } else {
                        u64::MAX
                    },
                },
            )
            &&& v[i].expires > now && v[i].token != token && Some(v[i].token) != previous ==> after.contains(v[i])
        }),
{
    let l = live(v, now);
    let left = without_opt(l, previous);
    if previous is Some {
        lemma_collect_len(l.len(), other_at(l, previous->0));
    }
    let (after, r) = login_outcome(v, previous, ResultView::Authenticated(who), true, Some(token), now);
    assert(r.headers =~= seq![
        (
            "Set-Cookie"@,
            "__Host-fwos"@ + "="@ + token + "; Path=/; Secure; HttpOnly; SameSite=Strict; Max-Age="@ + decimal(1800),
        ),
    ]);
    reveal_strlit("ok");
    reveal_strlit("principal");
    assert("ok"@.len() == 2 && "principal"@.len() == 9);
    assert(after.last() == (SessionView { token, authentication: who, expires: later(now, SESSION_LIFETIME_MS) }));
    if v[i].expires > now && v[i].token != token && Some(v[i].token) != previous {
        lemma_live_stays(v, now, i);
        lemma_others_stay(l, previous, v[i]);
        lemma_others_stay(left, Some(token), v[i]);
        let rest = without(left, token);
        let e = choose|e: int| 0 <= e < rest.len() && rest[e] == v[i];
        assert(after[e] == v[i]);
    }
}

proof fn lemma_live_stays(v: Seq<SessionView>, now: u64, i: int)
    requires
        0 <= i < v.len(),
        v[i].expires > now,
    ensures
        live(v, now).contains(v[i]),
{
    lemma_collects(v.len(), live_at(v, now), i);
}

proof fn lemma_others_stay(v: Seq<SessionView>, token: Option<Seq<char>>, s: SessionView)
    requires
        v.contains(s),
        Some(s.token) != token,
    ensures
        without_opt(v, token).contains(s),
{
    if token is Some {
        let k = choose|k: int| 0 <= k < v.len() && v[k] == s;
        lemma_collects(v.len(), other_at(v, token->0), k);
    }
}

/// A session stays until it expires: neither looking at the clock nor the logout
/// of another ends it.
pub proof fn law_other_sessions_stay(v: Seq<SessionView>, now: u64, token: Seq<char>, i: int)
    requires
        0 <= i < v.len(),
    ensures
        v[i].expires > now ==> live(v, now).contains(v[i]),
        v[i].token != token ==> without(v, token).contains(v[i]),
{
    if v[i].expires > now {
        lemma_live_stays(v, now, i);
    }
    if v[i].token != token {
        assert(v.contains(v[i]));
        lemma_others_stay(v, Some(token), v[i]);
    }
}

/// Who a token is of is known from the first session with it.
pub proof fn law_token_tells_who(v: Seq<SessionView>, i: int)
    requires
        0 <= i < v.len(),
        forall|j: int| 0 <= j < i ==> (#[trigger] v[j]).token != v[i].token,
    ensures
        session_of(v, v[i].token) == Some(v[i].authentication),
{
    text::lemma_first_some_is(v.len(), with_token(v, v[i].token), i);
}

/// How a login fails: a password that is not right and an account that is no
/// administrator are told alike; who has to prove more is told so, and there is
/// neither a session without a token nor one too many.
pub proof fn law_failed_logins_are_told(
    v: Seq<SessionView>,
    previous: Option<Seq<char>>,
    who: AuthenticationView,
    source: Seq<char>,
    required: Assurance,
    token: Option<Seq<char>>,
    now: u64,
)
    ensures
        login_outcome(v, previous, ResultView::Denied, true, token, now).1.status == 401,
        login_outcome(v, previous, ResultView::Authenticated(who), false, token, now)
            == login_outcome(v, previous, ResultView::Denied, true, token, now),
        login_outcome(v, previous, ResultView::Challenge(source, required), true, token, now).1.status == 403,
        login_outcome(v, previous, ResultView::Authenticated(who), true, None, now).1.status == 503,
        previous is None && live(v, now).len() >= 1024 && token is Some ==> login_outcome(
            v,
            previous,
            ResultView::Authenticated(who),
            true,
            token,
            now,
        ).1.status == 503,
{
}

/// A request has the token of its cookie where just one cookie can hold a token:
/// 64 hexadecimal digits under the name of the session.
pub proof fn law_cookie_holds_the_token(q: RequestView, cookies: Seq<char>, k: int, token: Seq<char>)
    requires
        header(q.headers, "cookie"@) == Some(cookies),
        0 <= k < split(cookies, ';').len(),
        trim(split(cookies, ';')[k]) == "__Host-fwos"@ + "="@ + token,
        token.len() == 64,
        forall|i: int| 0 <= i < token.len() ==> is_hex(#[trigger] token[i]),
        forall|j: int|
            0 <= j < split(cookies, ';').len() && j != k ==> !starts_with(
                trim(#[trigger] split(cookies, ';')[j]),
                "__Host-fwos"@ + "="@,
            ),
    ensures
        token_of(q) == Some(token),
{
    let v = split(cookies, ';');
    let f = cookie_token(v);
    lemma_session_cookie(v[k], token);
    assert forall|j: int| 0 <= j < v.len() && j != k implies #[trigger] f(j) is None by {
        assert(!starts_with(trim(v[j]), "__Host-fwos"@ + "="@));
        lemma_other_cookie(v[j]);
    }
    lemma_collect_only(v.len(), f, k);
    assert(f(k) == Some(token));
}

proof fn lemma_session_cookie(cookie: Seq<char>, token: Seq<char>)
    requires
        trim(cookie) == "__Host-fwos"@ + "="@ + token,
    ensures
        split_once(trim(cookie), '=') == Some((SESSION_COOKIE@, token)),
{
    reveal_strlit("__Host-fwos");
    reveal_strlit("=");
    assert("="@ =~= seq!['=']);
    assert(!"__Host-fwos"@.contains('=')) by {
        assert(forall|i: int| 0 <= i < "__Host-fwos"@.len() ==> "__Host-fwos"@[i] != '=');
    }
    lemma_split_once("__Host-fwos"@, '=', token);
}

proof fn lemma_other_cookie(cookie: Seq<char>)
    requires
        !starts_with(trim(cookie), "__Host-fwos"@ + "="@),
    ensures
        split_once(trim(cookie), '=') is Some ==> (split_once(trim(cookie), '=')->0).0 != SESSION_COOKIE@,
{
    let c = trim(cookie);
    if split_once(c, '=') is Some && (split_once(c, '=')->0).0 == SESSION_COOKIE@ {
        reveal_strlit("=");
        text::lemma_first(c, '=');
        let n = text::first(c, '=') as int;
        assert(c[n] == '=');
        let p = "__Host-fwos"@ + "="@;
        assert(c.take(n) == "__Host-fwos"@);
        assert forall|i: int| 0 <= i < p.len() implies c.take(p.len() as int)[i] == p[i] by {
            if i < n {
                assert(c.take(n)[i] == c[i]);
            }
        }
        assert(c.take(p.len() as int) =~= p);
    }
}

/// Two cookies that hold tokens are as good as none.
pub proof fn law_two_tokens_are_none(q: RequestView, cookies: Seq<char>, j: int, k: int, a: Seq<char>, b: Seq<char>)
    requires
        header(q.headers, "cookie"@) == Some(cookies),
        0 <= j < k < split(cookies, ';').len(),
        trim(split(cookies, ';')[j]) == "__Host-fwos"@ + "="@ + a,
        trim(split(cookies, ';')[k]) == "__Host-fwos"@ + "="@ + b,
        is_token(a),
        is_token(b),
    ensures
        token_of(q) is None,
{
    let v = split(cookies, ';');
    lemma_session_cookie(v[j], a);
    lemma_session_cookie(v[k], b);
    lemma_collect_two(v.len(), cookie_token(v), j, k);
}

/// A request is taken for one of the appliance's own pages just where it holds
/// JSON, comes from nowhere else, and says of no other site that it does.
pub proof fn law_own_pages_are_told(q: RequestView)
    ensures
        is_same_origin_json(q) <==> {
            let kind = header(q.headers, "content-type"@);
            let origin = header(q.headers, "origin"@);
            let host = header(q.headers, "host"@);
            &&& kind is Some && lower(trim(before(kind->0, ';'))) == "application/json"@
            &&& origin is None || (host is Some && origin->0 == "https://"@ + host->0)
            &&& header(q.headers, "sec-fetch-site"@) != Some("cross-site"@)
        },
{
}

/// Pages are sent to whoever asks, whatever follows the question mark.
pub proof fn law_pages_are_sent(q: RequestView, query: Seq<char>, bootstrapped: bool, authenticated: bool)
    requires
        q.method == "GET"@,
    ensures
        q.path == "/"@ || q.path == "/"@ + "?"@ + query || q.path == "/index.html"@ || q.path == "/index.html"@ + "?"@
            + query ==> dispatched(q, bootstrapped, authenticated) == RouteView::File("index.html"@),
        q.path == "/app.js"@ || q.path == "/app.js"@ + "?"@ + query ==> dispatched(q, bootstrapped, authenticated)
            == RouteView::File("app.js"@),
{
    reveal_strlit("?");
    reveal_strlit("/");
    reveal_strlit("/index.html");
    reveal_strlit("/app.js");
    reveal_strlit("/api/");
    reveal_strlit("GET");
    reveal_strlit("POST");
    assert("?"@ =~= seq!['?']);
    assert("GET"@.len() == 3 && "POST"@.len() == 4);
    assert("/"@.len() == 1 && "/index.html"@.len() == 11 && "/app.js"@.len() == 7 && "/api/"@.len() == 5);
    assert(!"/"@.contains('?'));
    assert(!"/index.html"@.contains('?'));
    assert(!"/app.js"@.contains('?'));
    lemma_split_once("/"@, '?', query);
    lemma_split_once("/index.html"@, '?', query);
    lemma_split_once("/app.js"@, '?', query);
    assert("/index.html"@.take(5)[1] == 'i' && "/api/"@[1] == 'a');
    assert("/app.js"@.take(5)[3] == 'p' && "/api/"@[3] == 'i');
    assert(!is_call("/"@) && !is_call("/index.html"@) && !is_call("/app.js"@));
}

/// How the appliance is is told to administrators, and to anyone before there is
/// an owner.
pub proof fn law_status_is_told(q: RequestView, bootstrapped: bool, authenticated: bool)
    requires
        q.method == "GET"@,
        before(q.path, '?') == "/api/status"@,
    ensures
        authenticated || !bootstrapped ==> dispatched(q, bootstrapped, authenticated) is Status,
        !authenticated && bootstrapped ==> (dispatched(q, bootstrapped, authenticated) matches RouteView::Respond(r)
            && r.status == 401),
{
    lemma_calls();
}

/// The words that requests are told apart by.
proof fn lemma_calls()
    ensures
        is_call("/api/status"@) && is_call("/api/login"@) && is_call("/api/logout"@) && is_call("/api/bootstrap"@),
        "/api/status"@ != "/api/login"@ && "/api/status"@ != "/api/logout"@ && "/api/status"@ != "/api/bootstrap"@,
        "/api/login"@ != "/api/logout"@ && "/api/login"@ != "/api/bootstrap"@ && "/api/logout"@ != "/api/bootstrap"@,
        "/api/status"@ != "/"@ && "/api/status"@ != "/index.html"@ && "/api/status"@ != "/app.js"@,
        "GET"@ != "POST"@,
{
    reveal_strlit("GET");
    reveal_strlit("POST");
    reveal_strlit("/");
    reveal_strlit("/index.html");
    reveal_strlit("/app.js");
    reveal_strlit("/api/");
    reveal_strlit("/api/status");
    reveal_strlit("/api/login");
    reveal_strlit("/api/logout");
    reveal_strlit("/api/bootstrap");
    assert("GET"@.len() == 3 && "POST"@.len() == 4);
    assert("/"@.len() == 1 && "/index.html"@.len() == 11 && "/app.js"@.len() == 7 && "/api/"@.len() == 5);
    assert("/api/status"@.len() == 11 && "/api/login"@.len() == 10 && "/api/logout"@.len() == 11 && "/api/bootstrap"@.len()
        == 14);
    assert("/api/status"@[5] == 's' && "/api/logout"@[5] == 'l' && "/index.html"@[1] == 'i' && "/api/status"@[1] == 'a');
    assert("/api/status"@.take(5) =~= "/api/"@);
    assert("/api/login"@.take(5) =~= "/api/"@);
    assert("/api/logout"@.take(5) =~= "/api/"@);
    assert("/api/bootstrap"@.take(5) =~= "/api/"@);
}

/// From a page of the appliance anyone may log in or set up, and whoever is
/// logged in may log out; from elsewhere nobody may.
pub proof fn law_calls_are_let_in(q: RequestView, bootstrapped: bool, authenticated: bool)
    requires
        q.method == "POST"@,
    ensures
        ({
            let path = before(q.path, '?');
            let d = dispatched(q, bootstrapped, authenticated);
            &&& is_same_origin_json(q) && path == "/api/login"@ ==> d is Login
            &&& is_same_origin_json(q) && path == "/api/bootstrap"@ ==> d is Bootstrap
            &&& is_same_origin_json(q) && path == "/api/logout"@ && authenticated ==> d is Logout
            &&& is_same_origin_json(q) && path == "/api/logout"@ && !authenticated ==> (d matches RouteView::Respond(r)
                && r.status == 401)
            &&& !is_same_origin_json(q) && starts_with(path, "/api/"@) ==> (d matches RouteView::Respond(r) && r.status
                == 403)
        }),
{
    lemma_calls();
}

/// What there is not is answered so, and so is what cannot be done.
pub proof fn law_unknown_requests_are_answered(q: RequestView, bootstrapped: bool)
    ensures
        ({
            let path = before(q.path, '?');
            let d = dispatched(q, bootstrapped, true);
            let known = path == "/"@ || path == "/index.html"@ || path == "/app.js"@ || path == "/api/status"@;
            &&& q.method == "GET"@ && !known ==> (d matches RouteView::Respond(r) && r.status == 404)
            &&& q.method == "POST"@ && is_same_origin_json(q) && path != "/api/login"@ && path != "/api/logout"@ && path
                != "/api/bootstrap"@ ==> (d matches RouteView::Respond(r) && r.status == 404)
            &&& q.method != "GET"@ && q.method != "POST"@ ==> (d matches RouteView::Respond(r) && r.status == 405)
        }),
{
    lemma_calls();
}

/// A form is taken up just where there is no owner yet, the names and the
/// password can be such, and the interfaces are in order.
pub proof fn law_sound_set_up_is_taken_up(bootstrapped: bool, form: Result<Bootstrap, String>)
    ensures
        setup_refusal(bootstrapped, form) is None <==> {
            &&& !bootstrapped
            &&& form is Ok
            &&& is_hostname(trim((form->Ok_0).hostname@))
            &&& is_username(trim((form->Ok_0).admin@))
            &&& is_password((form->Ok_0).password@)
            &&& (form->Ok_0).interfaces@.len() > 0
            &&& form_error(form->Ok_0) is None
        },
        bootstrapped ==> setup_refusal(bootstrapped, form) is Some && (setup_refusal(bootstrapped, form)->0).status
            == 409,
        !bootstrapped && setup_refusal(bootstrapped, form) is Some ==> (setup_refusal(bootstrapped, form)->0).status
            == 400,
{
}

/// Where the network daemon says that the set-up is done, the response says so
/// too, and that is recorded; else its reply is passed on.
pub proof fn law_done_set_up_is_recorded(v: JsonView, e: Seq<char>)
    ensures
        v.member("ok"@) == Some(JsonView::Bool(true)) ==> setup_response(Ok(v)).status == 200 && setup_response(
            Ok(v),
        ).stamp,
        v.member("ok"@) != Some(JsonView::Bool(true)) ==> setup_response(Ok(v)).status == 502 && !setup_response(
            Ok(v),
        ).stamp && setup_response(Ok(v)).content == ContentView::Value(v),
        setup_response(Err(e)).status == 502,
        setup_response(Err(e)).content matches ContentView::Value(r) && r.member("ok"@) == Some(JsonView::Bool(false))
            && r.member("error"@) == Some(JsonView::Text(e)),
{
    lemma_reply_keys();
}

/// What is told of the appliance: whether it has an owner, the hostname that is
/// kept or else that of the state, the NICs, and what the state says of its
/// interfaces, in their order, and of the addressing.
pub proof fn law_status_tells_the_state(
    bootstrapped: bool,
    hostname: Option<Seq<char>>,
    nics: JsonView,
    desired: JsonView,
    list: Seq<JsonView>,
    k: int,
)
    requires
        desired.member("interfaces"@) == Some(JsonView::List(list)),
        0 <= k < list.len(),
    ensures
        ({
            let s = status_of(bootstrapped, hostname, nics, desired);
            &&& s.member("bootstrapped"@) == Some(JsonView::Bool(bootstrapped))
            &&& hostname is Some && trim(hostname->0).len() > 0 ==> s.member("hostname"@) == Some(
                JsonView::Text(trim(hostname->0)),
            )
            &&& hostname is None || trim(hostname->0).len() == 0 ==> s.member("hostname"@) == Some(
                text_or_null(desired.text_member("hostname"@)),
            )
            &&& s.member("nics"@) == Some(nics)
            &&& desired.member("ui_exposure"@) is Some ==> s.member("ui_exposure"@) == desired.member("ui_exposure"@)
            &&& s.member("lan_prefix"@) == Some(text_or_null(desired.text_member("lan_prefix"@)))
            &&& s.member("dhcp_pool"@) == Some(text_or_null(desired.text_member("dhcp_pool"@)))
            &&& s.member("wan_pd"@) == Some(text_or_null(desired.text_member("wan_pd"@)))
            &&& s.member("interfaces"@) matches Some(JsonView::List(shown)) && shown.len() == list.len() && {
                &&& shown[k].member("name"@) == list[k].member("name"@)
                &&& shown[k].member("role"@) == list[k].member("role"@)
                &&& shown[k].member("vlan"@) == list[k].member("vlan"@)
                &&& shown[k].member("parent"@) == list[k].member("parent"@)
                &&& shown[k].member("addresses"@) == list[k].member("addresses"@)
                &&& list[k].member("dhcp"@) == Some(JsonView::Bool(true)) ==> shown[k].member("dhcp"@) == Some(
                    JsonView::Bool(true),
                )
            }
        }),
{
    bootstrap::lemma_form_keys();
    lemma_shown_iface(list[k]);
    reveal_strlit("bootstrapped");
    reveal_strlit("nics");
    reveal_strlit("hostname");
    reveal_strlit("interfaces");
    reveal_strlit("ui_exposure");
    reveal_strlit("lan_prefix");
    reveal_strlit("dhcp_pool");
    reveal_strlit("wan_pd");
    assert("bootstrapped"@.len() == 12 && "nics"@.len() == 4 && "hostname"@.len() == 8 && "interfaces"@.len() == 10
        && "ui_exposure"@.len() == 11 && "lan_prefix"@.len() == 10 && "dhcp_pool"@.len() == 9 && "wan_pd"@.len() == 6);
    let shown = Seq::new(list.len(), |i: int| shown_iface(list[i]));
    assert(shown_ifaces(desired) == JsonView::List(shown));
    assert(shown[k] == shown_iface(list[k]));
}

proof fn lemma_shown_iface(i: JsonView)
    ensures
        shown_iface(i).member("name"@) == i.member("name"@),
        shown_iface(i).member("role"@) == i.member("role"@),
        shown_iface(i).member("vlan"@) == i.member("vlan"@),
        shown_iface(i).member("parent"@) == i.member("parent"@),
        shown_iface(i).member("addresses"@) == i.member("addresses"@),
        i.member("dhcp"@) == Some(JsonView::Bool(true)) ==> shown_iface(i).member("dhcp"@) == Some(
            JsonView::Bool(true),
        ),
{
    bootstrap::lemma_form_iface_keys();
    let a = with_member(JsonView::object(), i, "name"@);
    let b = with_member(a, i, "role"@);
    let c = with_member(b, i, "vlan"@);
    let d = with_member(c, i, "parent"@);
    let e = with_member(d, i, "addresses"@);
    assert(a is Object && b is Object && c is Object && d is Object && e is Object);
    assert(a.member("name"@) == i.member("name"@) && a.member("role"@) is None && a.member("vlan"@) is None && a.member(
        "parent"@,
    ) is None && a.member("addresses"@) is None);
    assert(b.member("name"@) == i.member("name"@) && b.member("role"@) == i.member("role"@) && b.member("vlan"@) is None
        && b.member("parent"@) is None && b.member("addresses"@) is None);
    assert(c.member("name"@) == i.member("name"@) && c.member("role"@) == i.member("role"@) && c.member("vlan"@)
        == i.member("vlan"@) && c.member("parent"@) is None && c.member("addresses"@) is None);
    assert(d.member("name"@) == i.member("name"@) && d.member("role"@) == i.member("role"@) && d.member("vlan"@)
        == i.member("vlan"@) && d.member("parent"@) == i.member("parent"@) && d.member("addresses"@) is None);
    assert(e.member("name"@) == i.member("name"@) && e.member("role"@) == i.member("role"@) && e.member("vlan"@)
        == i.member("vlan"@) && e.member("parent"@) == i.member("parent"@));
}

/// The NICs that the network daemon tells are passed on.
pub proof fn law_nics_are_passed_on(reply: JsonView, list: Seq<JsonView>)
    requires
        reply.member("nics"@) == Some(JsonView::List(list)),
    ensures
        told_nics(Some(reply)) == JsonView::List(list),
{
}

/// Every address is listened at on port 443, that of the second family in
/// brackets and with its scope where it has one.
pub proof fn law_addresses_are_listened_at(a: u32, b: u128, scope: u32)
    ensures
        bind_text(BindAddr { ip: IpAddr::V4(a), scope }) == crate::ip::text_v4(a) + ":443"@,
        bind_text(BindAddr { ip: IpAddr::V6(b), scope: 0 }) == "["@ + crate::ip::text_v6(b) + "]:443"@,
        scope > 0 ==> bind_text(BindAddr { ip: IpAddr::V6(b), scope }) == "["@ + crate::ip::text_v6(b) + "%"@ + decimal(
            scope as nat,
        ) + "]:443"@,
{
}

/// A script is sent as such, and all else as a page.
pub proof fn law_types_of_files(stem: Seq<char>)
    ensures
        mime_of(stem + ".js"@) == "application/javascript; charset=utf-8"@,
        mime_of(stem + ".html"@) == "text/html; charset=utf-8"@,
{
    reveal_strlit(".js");
    reveal_strlit(".html");
    let s = stem + ".js"@;
    assert(s.skip(s.len() - ".js"@.len()) =~= ".js"@);
    let t = stem + ".html"@;
    assert(".js"@.len() == 3 && ".html"@.len() == 5);
    assert(t.skip(t.len() - 3)[2] == 'l' && ".js"@[2] == 's');
}

/// What is answered is JSON where it is a value and plain text where it is a few
/// words, with no further headers, and nothing is recorded on its account.
pub proof fn law_responses_tell_their_type(status: u16, v: JsonView, bytes: Seq<u8>)
    ensures
        value_response(status, v).status == status,
        value_response(status, v).ctype == "application/json; charset=utf-8"@,
        value_response(status, v).content == ContentView::Value(v),
        value_response(status, v).headers.len() == 0 && !value_response(status, v).stamp,
        words_response(status, bytes).status == status,
        words_response(status, bytes).ctype == "text/plain; charset=utf-8"@,
        words_response(status, bytes).content == ContentView::Bytes(bytes),
        words_response(status, bytes).headers.len() == 0 && !words_response(status, bytes).stamp,
{
}

/// A login that cannot be read is refused, and so is one while another is being
/// tried; any other is tried.
pub proof fn law_logins_are_tried(readable: bool, busy: bool)
    ensures
        login_refusal(readable, busy) is None <==> readable && !busy,
        !readable ==> (login_refusal(readable, busy) matches Some(r) && r.status == 400),
        readable && busy ==> (login_refusal(readable, busy) matches Some(r) && r.status == 429),
{
}

/// Who has to prove more is told at which source and how much.
pub proof fn law_challenge_is_told(
    v: Seq<SessionView>,
    previous: Option<Seq<char>>,
    source: Seq<char>,
    required: Assurance,
    authorized: bool,
    token: Option<Seq<char>>,
    now: u64,
)
    ensures
        login_outcome(v, previous, ResultView::Challenge(source, required), authorized, token, now).1.content
            matches ContentView::Value(j) && j.member("ok"@) == Some(JsonView::Bool(false)) && {
            let c = j.member("challenge"@);
            &&& c is Some
            &&& (c->0).member("source"@) == Some(JsonView::Text(source))
            &&& (c->0).member("required_assurance"@) == Some(
                JsonView::Text(
                    match required {
                        Assurance::Password => "password"@,
                        Assurance::MultiFactor => "multi_factor"@,
                    },
                ),
            )
        },
{
    reveal_strlit("ok");
    reveal_strlit("challenge");
    reveal_strlit("error");
    reveal_strlit("source");
    reveal_strlit("required_assurance");
    assert("ok"@.len() == 2 && "challenge"@.len() == 9 && "error"@.len() == 5 && "source"@.len() == 6
        && "required_assurance"@.len() == 18);
}

/// The cookie of a session that ends is empty and lasts no longer.
pub proof fn law_ended_cookie_is_empty()
    ensures
        ended_cookie() == "__Host-fwos"@ + "=; Path=/; Secure; HttpOnly; SameSite=Strict; Max-Age=0"@,
{
}

/// What the network daemon replied to a set-up is passed on as it is; what is no
/// reply is told as its error.
pub proof fn law_set_up_reply_is_passed_on(v: JsonView, e: Seq<char>, raw: Seq<char>)
    ensures
        setup_reply(Ok(v), raw) == v,
        setup_reply(Err(e), raw).member("ok"@) == Some(JsonView::Bool(false)),
        setup_reply(Err(e), raw).member("error"@) == Some(JsonView::Text(raw)),
{
    lemma_reply_keys();
}

/// A name that leads to no other directory can be that of a file.
pub proof fn law_file_names(name: Seq<char>)
    requires
        forall|i: int| 0 <= i < name.len() ==> #[trigger] name[i] != '/' && name[i] != '\\',
        forall|i: int| 0 <= i < name.len() - 1 ==> !(#[trigger] name[i] == '.' && name[i + 1] == '.'),
    ensures
        is_file_name(name),
{
    reveal_strlit("..");
    if occurs(name, ".."@) {
        let i = choose|i: int| #[trigger] text::occurs_at(name, ".."@, i);
        let t = name.subrange(i, i + 2);
        assert(".."@.len() == 2);
        assert(t == ".."@);
        assert(t[0] == name[i] && t[1] == name[i + 1]);
        assert(".."@[0] == '.' && ".."@[1] == '.');
    }
}

} // verus!
