//! Updates of the host: staging an image, going back to the one before, and
//! finding out after a start whether the new one works.

use crate::ip;
use crate::ip::parse;
use crate::json::{Json, JsonView};
use crate::reports::{done, error_reply, not_done, ok_reply};
use crate::text;
use crate::text::{
    before, failure, first_some, head, rsplit_once, same, starts_with, strip, strip_prefix, text_opt,
    trim, trimmed,
};
use vstd::prelude::*;

verus! {

// ---------------------------------------------------------------------------
// What is deployed
// ---------------------------------------------------------------------------

/// The images that are booted, staged, and gone back to; empty where there is
/// none.
#[derive(Debug)]
pub struct Images {
    pub booted: String,
    pub staged: String,
    pub rollback: String,
}

#[verifier::ext_equal]
pub struct ImagesView {
    pub booted: Seq<char>,
    pub staged: Seq<char>,
    pub rollback: Seq<char>,
}

impl View for Images {
    type V = ImagesView;

    open spec fn view(&self) -> ImagesView {
        ImagesView { booted: self.booted@, staged: self.staged@, rollback: self.rollback@ }
    }
}

/// The value at the end of a path of keys; null where there is none.
pub open spec fn value_at(v: JsonView, path: Seq<Seq<char>>) -> JsonView
    decreases path.len(),
{
    if path.len() == 0 {
        v
    } else {
        match v.member(path[0]) {
            Some(x) => value_at(x, path.skip(1)),
            None => JsonView::Null,
        }
    }
}

/// The places where a report may tell an image, the first one first.
pub open spec fn image_paths(which: Seq<char>) -> Seq<Seq<Seq<char>>> {
    seq![
        seq!["status"@, which, "image"@, "image"@, "image"@],
        seq!["status"@, which, "image"@, "image"@],
        seq![which, "image"@, "image"@, "image"@],
        seq![which, "image"@, "image"@],
    ]
}

/// The text at a place, where it is one and not empty.
pub open spec fn text_at(v: JsonView, path: Seq<Seq<char>>) -> Option<Seq<char>> {
    match value_at(v, path).as_text() {
        Some(s) => if s.len() > 0 {
            Some(s)
        } else {
            None
        },
        None => None,
    }
}

pub open spec fn image_at(v: JsonView, which: Seq<char>) -> spec_fn(int) -> Option<Seq<char>> {
    |i: int| text_at(v, image_paths(which)[i])
}

/// The image that a report tells, or nothing.
pub open spec fn image_of(v: JsonView, which: Seq<char>) -> Seq<char> {
    match first_some(4, image_at(v, which)) {
        Some(s) => s,
        None => ""@,
    }
}

fn member<'a>(v: Option<&'a Json>, key: &str) -> (r: Option<&'a Json>)
    ensures
        match v {
            Some(x) => match r {
                Some(y) => x@.member(key@) == Some(y@),
                None => x@.member(key@) is None,
            },
            None => r is None,
        },
{
    match v {
        Some(x) => x.get(key),
        None => None,
    }
}

/// What a walk of keys comes to: a value, or none.
pub open spec fn walked(v: Option<&Json>) -> JsonView {
    match v {
        Some(x) => x@,
        None => JsonView::Null,
    }
}

proof fn lemma_value_at(v: JsonView, key: Seq<char>, rest: Seq<Seq<char>>)
    ensures
        value_at(v, seq![key] + rest) == match v.member(key) {
            Some(x) => value_at(x, rest),
            None => JsonView::Null,
        },
{
    let path = seq![key] + rest;
    assert(path[0] == key);
    assert(path.skip(1) == rest);
}

fn text_of(v: Option<&Json>) -> (r: Option<String>)
    ensures
        text_opt(r) == match walked(v).as_text() {
            Some(s) => if s.len() > 0 {
                Some(s)
            } else {
                None
            },
            None => None,
        },
{
    match v {
        Some(x) => match x.as_str() {
            Some(s) => if s.is_empty() {
                None
            } else {
                Some(s.to_owned())
            },
            None => None,
        },
        None => None,
    }
}

/// The texts at the two places below a value: `image.image.image`, else
/// `image.image`.
fn nested_image(v: Option<&Json>) -> (r: (Option<String>, Option<String>))
    ensures
        text_opt(r.0) == match v {
            Some(x) => text_at(x@, seq!["image"@, "image"@, "image"@]),
            None => None,
        },
        text_opt(r.1) == match v {
            Some(x) => text_at(x@, seq!["image"@, "image"@]),
            None => None,
        },
{
    let a = member(v, "image");
    let b = member(a, "image");
    let c = member(b, "image");
    proof {
        let e = Seq::<Seq<char>>::empty();
        if let Some(x) = v {
            assert(seq!["image"@] + e == seq!["image"@]);
            assert(seq!["image"@] + seq!["image"@] == seq!["image"@, "image"@]);
            assert(seq!["image"@] + seq!["image"@, "image"@] == seq!["image"@, "image"@, "image"@]);
            lemma_value_at(x@, "image"@, seq!["image"@]);
            lemma_value_at(x@, "image"@, seq!["image"@, "image"@]);
            if let Some(y) = a {
                lemma_value_at(y@, "image"@, e);
                lemma_value_at(y@, "image"@, seq!["image"@]);
                if let Some(z) = b {
                    lemma_value_at(z@, "image"@, e);
                }
            }
        }
    }
    (text_of(c), text_of(b))
}

/// The image that a report of `bootc status` tells, or nothing.
pub fn image_ref(v: &Json, which: &str) -> (r: String)
    ensures
        r@ == image_of(v@, which@),
{
    let ghost f = image_at(v@, which@);
    let under = member(v.get("status"), which);
    let direct = v.get(which);
    let (a, b) = nested_image(under);
    let (c, d) = nested_image(direct);
    proof {
        let s3 = seq!["image"@, "image"@, "image"@];
        let s2 = seq!["image"@, "image"@];
        let p = image_paths(which@);
        assert(p[0] == seq!["status"@] + (seq![which@] + s3));
        assert(p[1] == seq!["status"@] + (seq![which@] + s2));
        assert(p[2] == seq![which@] + s3);
        assert(p[3] == seq![which@] + s2);
        lemma_value_at(v@, "status"@, seq![which@] + s3);
        lemma_value_at(v@, "status"@, seq![which@] + s2);
        lemma_value_at(v@, which@, s3);
        lemma_value_at(v@, which@, s2);
        if let Some(x) = v@.member("status"@) {
            lemma_value_at(x, which@, s3);
            lemma_value_at(x, which@, s2);
        }
        assert(f(0) == text_opt(a));
        assert(f(1) == text_opt(b));
        assert(f(2) == text_opt(c));
        assert(f(3) == text_opt(d));
        text::lemma_first_some_none(0, f);
        reveal_with_fuel(first_some, 5);
    }
    match a {
        Some(s) => s,
        None => match b {
            Some(s) => s,
            None => match c {
                Some(s) => s,
                None => match d {
                    Some(s) => s,
                    None => "".to_owned(),
                },
            },
        },
    }
}

/// What a report of `bootc status` tells; null is a report that tells nothing.
pub fn bootc_images(v: &Json) -> (r: Images)
    ensures
        r@ == (ImagesView {
            booted: image_of(v@, "booted"@),
            staged: image_of(v@, "staged"@),
            rollback: image_of(v@, "rollback"@),
        }),
{
    Images {
        booted: image_ref(v, "booted"),
        staged: image_ref(v, "staged"),
        rollback: image_ref(v, "rollback"),
    }
}

// ---------------------------------------------------------------------------
// Registries
// ---------------------------------------------------------------------------

/// A text without the characters `c` at its start.
pub open spec fn without_leading(s: Seq<char>, c: char) -> Seq<char>
    decreases s.len(),
{
    if s.len() > 0 && s[0] == c {
        without_leading(s.skip(1), c)
    } else {
        s
    }
}

/// A text without the characters `c` at its end.
pub open spec fn without_trailing(s: Seq<char>, c: char) -> Seq<char>
    decreases s.len(),
{
    if s.len() > 0 && s.last() == c {
        without_trailing(s.drop_last(), c)
    } else {
        s
    }
}

fn strip_leading(s: &str, c: char) -> (r: String)
    ensures
        r@ == without_leading(s@, c),
{
    let v = text::chars_of(s);
    let mut i: usize = 0;
    assert(v@.skip(0) == s@);
    while i < v.len() && v[i] == c
        invariant
            v@ == s@,
            i <= v@.len(),
            without_leading(v@.skip(i as int), c) == without_leading(s@, c),
        decreases v@.len() - i,
    {
        assert(v@.skip(i as int).skip(1) == v@.skip(i + 1));
        i = i + 1;
    }
    assert(without_leading(v@.skip(i as int), c) == v@.skip(i as int));
    assert(v@.skip(i as int) == v@.subrange(i as int, v@.len() as int));
    text::slice_text(&v, i, v.len())
}

fn strip_trailing(s: &str, c: char) -> (r: String)
    ensures
        r@ == without_trailing(s@, c),
{
    let v = text::chars_of(s);
    let mut i: usize = v.len();
    assert(v@.take(v@.len() as int) == s@);
    while i > 0 && v[i - 1] == c
        invariant
            v@ == s@,
            i <= v@.len(),
            without_trailing(v@.take(i as int), c) == without_trailing(s@, c),
        decreases i,
    {
        assert(v@.take(i as int).drop_last() == v@.take(i - 1));
        i = i - 1;
    }
    assert(without_trailing(v@.take(i as int), c) == v@.take(i as int));
    assert(v@.take(i as int) == v@.subrange(0, i as int));
    text::slice_text(&v, 0, i)
}

/// The host that an image comes from, with its port.
pub open spec fn image_host(image: Seq<char>) -> Seq<char> {
    before(strip_prefix(image, "docker://"@), '/')
}

/// The name of a host, without its port and brackets.
pub open spec fn host_name(host: Seq<char>) -> Seq<char> {
    let name = match rsplit_once(host, ':') {
        Some((h, _)) => h,
        None => host,
    };
    without_trailing(without_leading(name, '['), ']')
}

/// The registry of an image, where it is one without a certificate: one that
/// is named by its address, or this host.
pub open spec fn local_registry(image: Seq<char>) -> Option<Seq<char>> {
    let host = image_host(image);
    if host.len() > 0 && (host_name(host) == "localhost"@ || parse(host_name(host)) is Some) {
        Some(host)
    } else {
        None
    }
}

/// The registry of an image, where it is one without a certificate.
pub fn local_registry_host(image: &str) -> (r: Option<String>)
    ensures
        text_opt(r) == local_registry(image@),
{
    let rest = strip(image, "docker://");
    let host = head(rest.as_str(), '/');
    if host.as_str().is_empty() {
        return None;
    }
    let name = match text::rcut(host.as_str(), ':') {
        Some((h, _)) => h,
        None => host.clone(),
    };
    let name = strip_leading(name.as_str(), '[');
    let name = strip_trailing(name.as_str(), ']');
    if same(name.as_str(), "localhost") || ip::read(name.as_str()).is_some() {
        Some(host)
    } else {
        None
    }
}

/// The configuration that lets images of a registry without a certificate in.
pub open spec fn registry_text(host: Seq<char>) -> Seq<char> {
    "[[registry]]\nlocation = \""@ + host + "\"\ninsecure = true\n"@
}

/// The configuration that an image needs before it can be staged, if any.
pub fn allow_insecure_local_registry(image: &str) -> (r: Option<String>)
    ensures
        text_opt(r) == match local_registry(image@) {
            Some(host) => Some(registry_text(host)),
            None => None,
        },
{
    match local_registry_host(image) {
        Some(host) => Some(
            "[[registry]]\nlocation = \"".to_owned().concat(host.as_str()).concat("\"\ninsecure = true\n"),
        ),
        None => None,
    }
}

/// What is told of a call of `bootc` that failed.
pub open spec fn bootc_failure(what: Seq<char>, stdout: Seq<char>, stderr: Seq<char>) -> Seq<char> {
    "bootc "@ + what + " failed: "@ + trim(stdout) + " "@ + trim(stderr)
}

/// What a call of `bootc` came to.
pub fn bootc_outcome(what: &str, success: bool, stdout: &str, stderr: &str) -> (r: Result<(), String>)
    ensures
        failure(r) == if success {
            None
        } else {
            Some(bootc_failure(what@, stdout@, stderr@))
        },
{
    if success {
        Ok(())
    } else {
        Err(
            "bootc ".to_owned().concat(what).concat(" failed: ").concat(trimmed(stdout).as_str()).concat(" ").concat(
                trimmed(stderr).as_str(),
            ),
        )
    }
}

// ---------------------------------------------------------------------------
// Requests
// ---------------------------------------------------------------------------

/// What is asked for.
#[derive(Debug)]
pub struct Request {
    pub op: String,
    pub image: String,
}

/// How far a request has come.
#[derive(Clone, Copy, Debug, PartialEq, Eq, Structural)]
pub enum UpdateStage {
    /// What is deployed is being looked at.
    Telling,
    /// The image before is being gone back to.
    RollingBack,
    /// The note of the image that is tried is being taken away.
    Forgetting,
    /// What is deployed then is being looked at.
    RolledBack,
    /// The image that is tried is being noted.
    Noting,
    /// It is being staged.
    Staging,
    /// That failed: the note is being taken away.
    Unnoting,
    /// What is deployed then is being looked at.
    Staged,
    /// The image as it is then named is being noted.
    Renoting,
    Over,
}

/// A request that is being done.
pub struct Update {
    pub stage: UpdateStage,
    pub image: String,
    pub error: String,
    pub images: Images,
}

#[verifier::ext_equal]
pub struct UpdateView {
    pub stage: UpdateStage,
    pub image: Seq<char>,
    pub error: Seq<char>,
    pub images: ImagesView,
}

impl View for Update {
    type V = UpdateView;

    open spec fn view(&self) -> UpdateView {
        UpdateView {
            stage: self.stage,
            image: self.image@,
            error: self.error@,
            images: self.images@,
        }
    }
}

/// What came of what was to be done.
pub enum UpdateEvent {
    Outcome(Result<(), String>),
    Images(Images),
}

pub enum UpdateEventView {
    Outcome(Option<Seq<char>>),
    Images(ImagesView),
}

impl View for UpdateEvent {
    type V = UpdateEventView;

    open spec fn view(&self) -> UpdateEventView {
        match self {
            UpdateEvent::Outcome(r) => UpdateEventView::Outcome(failure(*r)),
            UpdateEvent::Images(i) => UpdateEventView::Images(i@),
        }
    }
}

/// What is to be done next.
pub enum UpdateAction {
    /// Look at what is deployed.
    ReadImages,
    /// Go back to the image before.
    RollBack,
    /// Note the image that is tried.
    WritePending(String),
    /// Take that note away.
    ClearPending,
    /// Stage an image.
    Switch(String),
    /// Reply; where it is said, the host is then to be started anew.
    Reply(Json, bool),
}

pub enum UpdateActionView {
    ReadImages,
    RollBack,
    WritePending(Seq<char>),
    ClearPending,
    Switch(Seq<char>),
    Reply(JsonView, bool),
}

impl View for UpdateAction {
    type V = UpdateActionView;

    open spec fn view(&self) -> UpdateActionView {
        match self {
            UpdateAction::ReadImages => UpdateActionView::ReadImages,
            UpdateAction::RollBack => UpdateActionView::RollBack,
            UpdateAction::WritePending(s) => UpdateActionView::WritePending(s@),
            UpdateAction::ClearPending => UpdateActionView::ClearPending,
            UpdateAction::Switch(s) => UpdateActionView::Switch(s@),
            UpdateAction::Reply(v, b) => UpdateActionView::Reply(v@, *b),
        }
    }
}

/// The reply that tells what is deployed.
pub open spec fn images_reply(i: ImagesView, reboot_required: bool) -> JsonView {
    done().with("reboot_required"@, JsonView::Bool(reboot_required)).with("booted"@, JsonView::Text(i.booted)).with(
        "staged"@,
        JsonView::Text(i.staged),
    ).with("rollback"@, JsonView::Text(i.rollback))
}

fn images_value(i: &Images, reboot_required: bool) -> (r: Json)
    ensures
        r@ == images_reply(i@, reboot_required),
{
    ok_reply().with("reboot_required", Json::Bool(reboot_required)).with("booted", Json::text(i.booted.as_str())).with(
        "staged",
        Json::text(i.staged.as_str()),
    ).with("rollback", Json::text(i.rollback.as_str()))
}

pub open spec fn no_admin() -> JsonView {
    not_done("Host update refused until an admin exists"@)
}

/// Where a request begins, and what is to be done first.
pub open spec fn update_begin(op: Seq<char>, image: Seq<char>, admin: bool) -> (UpdateStage, UpdateActionView) {
    let refused = (UpdateStage::Over, UpdateActionView::Reply(no_admin(), false));
    if op == "status"@ {
        (UpdateStage::Telling, UpdateActionView::ReadImages)
    } else if op == "reboot"@ {
        if !admin {
            refused
        } else {
            (
                UpdateStage::Over,
                UpdateActionView::Reply(done().with("rebooting"@, JsonView::Bool(true)), true),
            )
        }
    } else if op == "rollback"@ {
        if !admin {
            refused
        } else {
            (UpdateStage::RollingBack, UpdateActionView::RollBack)
        }
    } else if op == "stage"@ {
        if !admin {
            refused
        } else if image.len() == 0 {
            (UpdateStage::Over, UpdateActionView::Reply(not_done("Host image required"@), false))
        } else {
            (UpdateStage::Noting, UpdateActionView::WritePending(image))
        }
    } else {
        (UpdateStage::Over, UpdateActionView::Reply(not_done("unknown op "@ + op), false))
    }
}

pub open spec fn no_images() -> ImagesView {
    ImagesView { booted: Seq::empty(), staged: Seq::empty(), rollback: Seq::empty() }
}

/// Begins to do what is asked for: `admin` says whether the appliance has an
/// owner.
pub fn handle_request(q: Request, admin: bool) -> (r: (Update, UpdateAction))
    ensures
        (r.0.stage, r.1@) == update_begin(q.op@, q.image@, admin),
        r.0@ == (UpdateView {
            stage: r.0.stage,
            image: q.image@,
            error: Seq::empty(),
            images: no_images(),
        }),
{
    let op = q.op.as_str();
    let (stage, action) = if same(op, "status") {
        (UpdateStage::Telling, UpdateAction::ReadImages)
    } else if same(op, "reboot") {
        if !admin {
            (UpdateStage::Over, refused())
        } else {
            (
                UpdateStage::Over,
                UpdateAction::Reply(ok_reply().with("rebooting", Json::Bool(true)), true),
            )
        }
    } else if same(op, "rollback") {
        if !admin {
            (UpdateStage::Over, refused())
        } else {
            (UpdateStage::RollingBack, UpdateAction::RollBack)
        }
    } else if same(op, "stage") {
        if !admin {
            (UpdateStage::Over, refused())
        } else if q.image.as_str().is_empty() {
            (UpdateStage::Over, UpdateAction::Reply(error_reply("Host image required"), false))
        } else {
            (UpdateStage::Noting, UpdateAction::WritePending(q.image.clone()))
        }
    } else {
        let e = "unknown op ".to_owned().concat(op);
        (UpdateStage::Over, UpdateAction::Reply(error_reply(e.as_str()), false))
    };
    let error = String::new();
    let images = Images { booted: String::new(), staged: String::new(), rollback: String::new() };
    assert(error@ == Seq::<char>::empty());
    assert(images@ == no_images());
    (Update { stage, image: q.image, error, images }, action)
}

fn refused() -> (r: UpdateAction)
    ensures
        r@ == UpdateActionView::Reply(no_admin(), false),
{
    UpdateAction::Reply(error_reply("Host update refused until an admin exists"), false)
}

pub open spec fn update_at(u: UpdateView, stage: UpdateStage) -> UpdateView {
    UpdateView { stage, ..u }
}

pub open spec fn update_over(u: UpdateView, v: JsonView) -> (UpdateView, UpdateActionView) {
    (update_at(u, UpdateStage::Over), UpdateActionView::Reply(v, false))
}

/// How a request goes on.
pub open spec fn update_next(u: UpdateView, e: UpdateEventView) -> (UpdateView, UpdateActionView) {
    match (u.stage, e) {
        (UpdateStage::Telling, UpdateEventView::Images(i)) => update_over(
            u,
            images_reply(i, i.staged.len() > 0),
        ),
        (UpdateStage::RollingBack, UpdateEventView::Outcome(r)) => match r {
            None => (update_at(u, UpdateStage::Forgetting), UpdateActionView::ClearPending),
            Some(x) => update_over(u, not_done(x)),
        },
        (UpdateStage::Forgetting, UpdateEventView::Outcome(_)) => (
            update_at(u, UpdateStage::RolledBack),
            UpdateActionView::ReadImages,
        ),
        (UpdateStage::RolledBack, UpdateEventView::Images(i)) => update_over(u, images_reply(i, true)),
        (UpdateStage::Noting, UpdateEventView::Outcome(r)) => match r {
            None => (update_at(u, UpdateStage::Staging), UpdateActionView::Switch(u.image)),
            Some(x) => update_over(u, not_done(x)),
        },
        (UpdateStage::Staging, UpdateEventView::Outcome(r)) => match r {
            None => (update_at(u, UpdateStage::Staged), UpdateActionView::ReadImages),
            Some(error) => (
                UpdateView { stage: UpdateStage::Unnoting, error, ..u },
                UpdateActionView::ClearPending,
            ),
        },
        (UpdateStage::Unnoting, UpdateEventView::Outcome(_)) => update_over(u, not_done(u.error)),
        (UpdateStage::Staged, UpdateEventView::Images(i)) => if i.staged.len() > 0 {
            (
                UpdateView { stage: UpdateStage::Renoting, images: i, ..u },
                UpdateActionView::WritePending(i.staged),
            )
        } else {
            update_over(u, images_reply(i, true))
        },
        (UpdateStage::Renoting, UpdateEventView::Outcome(_)) => update_over(
            u,
            images_reply(u.images, true),
        ),
        _ => update_over(u, not_done("Host update was continued out of turn"@)),
    }
}

impl Update {
    fn at(self, stage: UpdateStage) -> (r: Update)
        ensures
            r@ == update_at(self@, stage),
    {
        Update { stage, ..self }
    }

    fn over(self, v: Json) -> (r: (Update, UpdateAction))
        ensures
            (r.0@, r.1@) == update_over(self@, v@),
    {
        (self.at(UpdateStage::Over), UpdateAction::Reply(v, false))
    }

    /// How the request goes on.
    pub fn next(self, e: UpdateEvent) -> (r: (Update, UpdateAction))
        ensures
            (r.0@, r.1@) == update_next(self@, e@),
    {
        match (self.stage, e) {
            (UpdateStage::Telling, UpdateEvent::Images(i)) => {
                let required = !i.staged.as_str().is_empty();
                self.over(images_value(&i, required))
            },
            (UpdateStage::RollingBack, UpdateEvent::Outcome(r)) => match r {
                Ok(_) => (self.at(UpdateStage::Forgetting), UpdateAction::ClearPending),
                Err(x) => self.over(error_reply(x.as_str())),
            },
            (UpdateStage::Forgetting, UpdateEvent::Outcome(_)) => (
                self.at(UpdateStage::RolledBack),
                UpdateAction::ReadImages,
            ),
            (UpdateStage::RolledBack, UpdateEvent::Images(i)) => self.over(images_value(&i, true)),
            (UpdateStage::Noting, UpdateEvent::Outcome(r)) => match r {
                Ok(_) => {
                    let image = self.image.clone();
                    (self.at(UpdateStage::Staging), UpdateAction::Switch(image))
                },
                Err(x) => self.over(error_reply(x.as_str())),
            },
            (UpdateStage::Staging, UpdateEvent::Outcome(r)) => match r {
                Ok(_) => (self.at(UpdateStage::Staged), UpdateAction::ReadImages),
                Err(error) => (
                    Update { stage: UpdateStage::Unnoting, error, ..self },
                    UpdateAction::ClearPending,
                ),
            },
            (UpdateStage::Unnoting, UpdateEvent::Outcome(_)) => {
                let v = error_reply(self.error.as_str());
                self.over(v)
            },
            (UpdateStage::Staged, UpdateEvent::Images(i)) => if !i.staged.as_str().is_empty() {
                let staged = i.staged.clone();
                (
                    Update { stage: UpdateStage::Renoting, images: i, ..self },
                    UpdateAction::WritePending(staged),
                )
            } else {
                self.over(images_value(&i, true))
            },
            (UpdateStage::Renoting, UpdateEvent::Outcome(_)) => {
                let v = images_value(&self.images, true);
                self.over(v)
            },
            (_, _) => self.over(error_reply("Host update was continued out of turn")),
        }
    }
}

/// Whether a reply says that something was done.
pub fn reply_ok(v: &Json) -> (r: bool)
    ensures
        r == (v@.bool_member("ok"@) == Some(true)),
{
    match v.bool_member("ok") {
        Some(b) => b,
        None => false,
    }
}

// ---------------------------------------------------------------------------
// Health
// ---------------------------------------------------------------------------

/// Whether the appliance works, else what does not.
#[derive(Clone, Copy, Debug, PartialEq, Eq, Structural)]
pub enum ApplianceHealth {
    Healthy,
    DefaultTargetNotReached,
    FwdMissing,
    MgmtMissing,
    NetdNotRunning,
}

impl ApplianceHealth {
    pub open spec fn text(self) -> Seq<char> {
        match self {
            ApplianceHealth::Healthy => "ok"@,
            ApplianceHealth::DefaultTargetNotReached => "default target not reached"@,
            ApplianceHealth::FwdMissing => "fwd missing"@,
            ApplianceHealth::MgmtMissing => "mgmt missing"@,
            ApplianceHealth::NetdNotRunning => "netd not running"@,
        }
    }

    /// How that reads.
    pub fn as_str(self) -> (r: &'static str)
        ensures
            r@ == self.text(),
    {
        match self {
            ApplianceHealth::Healthy => "ok",
            ApplianceHealth::DefaultTargetNotReached => "default target not reached",
            ApplianceHealth::FwdMissing => "fwd missing",
            ApplianceHealth::MgmtMissing => "mgmt missing",
            ApplianceHealth::NetdNotRunning => "netd not running",
        }
    }
}

/// The first thing that does not work.
pub open spec fn health_of(default_target: bool, fwd: bool, mgmt: bool, netd: bool) -> ApplianceHealth {
    if !default_target {
        ApplianceHealth::DefaultTargetNotReached
    } else if !fwd {
        ApplianceHealth::FwdMissing
    } else if !mgmt {
        ApplianceHealth::MgmtMissing
    } else if !netd {
        ApplianceHealth::NetdNotRunning
    } else {
        ApplianceHealth::Healthy
    }
}

/// Whether the appliance works: it was started whole, both namespaces are
/// there, and the network daemon is running.
pub fn assess_health(default_target: bool, fwd: bool, mgmt: bool, netd: bool) -> (r: ApplianceHealth)
    ensures
        r == health_of(default_target, fwd, mgmt, netd),
{
    if !default_target {
        ApplianceHealth::DefaultTargetNotReached
    } else if !fwd {
        ApplianceHealth::FwdMissing
    } else if !mgmt {
        ApplianceHealth::MgmtMissing
    } else if !netd {
        ApplianceHealth::NetdNotRunning
    } else {
        ApplianceHealth::Healthy
    }
}

/// Whether the image before is gone back to: the one that is tried is booted,
/// there is one before it, and the appliance does not work.
pub fn should_auto_rollback(pending_this_boot: bool, has_rollback: bool, health: ApplianceHealth) -> (r: bool)
    ensures
        r == (pending_this_boot && has_rollback && health != ApplianceHealth::Healthy),
{
    pending_this_boot && has_rollback && health != ApplianceHealth::Healthy
}

/// An image without the transport and the digest.
pub open spec fn plain_image(s: Seq<char>) -> Seq<char> {
    before(strip_prefix(s, "docker://"@), '@')
}

/// Whether the image that is tried is the one that is booted.
pub open spec fn is_this_boot(pending: Seq<char>, booted: Seq<char>) -> bool {
    plain_image(pending).len() > 0 && plain_image(pending) == plain_image(booted)
}

/// Whether the image that is tried is the one that is booted.
pub fn pending_is_this_boot(pending: &str, booted: &str) -> (r: bool)
    ensures
        r == is_this_boot(pending@, booted@),
{
    let p = head(strip(pending, "docker://").as_str(), '@');
    let b = head(strip(booted, "docker://").as_str(), '@');
    !p.as_str().is_empty() && !b.as_str().is_empty() && same(p.as_str(), b.as_str())
}

/// The image that is noted, or nothing.
pub fn read_pending(file: &Option<String>) -> (r: String)
    ensures
        r@ == match text_opt(*file) {
            Some(s) => trim(s),
            None => ""@,
        },
{
    match file {
        Some(s) => trimmed(s.as_str()),
        None => "".to_owned(),
    }
}

/// What is seen of the appliance at one time.
pub struct HealthFacts {
    pub booted: String,
    pub rollback: String,
    pub default_target: bool,
    pub fwd: bool,
    pub mgmt: bool,
    pub netd: bool,
    /// Whether it was waited long enough.
    pub late: bool,
}

/// What is done about it.
#[derive(Clone, Copy, Debug, PartialEq, Eq, Structural)]
pub enum HealthAction {
    /// Nothing: another image is booted, or none is tried.
    Leave,
    /// The image works: the note is taken away.
    Accept,
    /// It does not: go back to the one before, take the note away, and start
    /// anew.
    RollBack(ApplianceHealth),
    /// It does not, but there is none to go back to: the note is taken away.
    GiveUp,
    /// Look again in a while.
    Again,
}

/// What is done about what is seen, where `pending` is the image that is
/// tried.
pub open spec fn health_action(pending: Seq<char>, f: HealthFacts) -> HealthAction {
    let this_boot = is_this_boot(pending, f.booted@);
    let health = health_of(f.default_target, f.fwd, f.mgmt, f.netd);
    if pending.len() == 0 || (f.booted@.len() > 0 && !this_boot) {
        HealthAction::Leave
    } else if this_boot && health == ApplianceHealth::Healthy {
        HealthAction::Accept
    } else if !f.late {
        HealthAction::Again
    } else if this_boot && f.rollback@.len() > 0 {
        HealthAction::RollBack(health)
    } else if this_boot {
        HealthAction::GiveUp
    } else {
        HealthAction::Leave
    }
}

/// What is done about what is seen.
pub fn run_health(pending: &str, f: &HealthFacts) -> (r: HealthAction)
    ensures
        r == health_action(pending@, *f),
{
    if pending.is_empty() {
        return HealthAction::Leave;
    }
    let this_boot = pending_is_this_boot(pending, f.booted.as_str());
    if !f.booted.as_str().is_empty() && !this_boot {
        return HealthAction::Leave;
    }
    let health = assess_health(f.default_target, f.fwd, f.mgmt, f.netd);
    if this_boot && health == ApplianceHealth::Healthy {
        return HealthAction::Accept;
    }
    if !f.late {
        return HealthAction::Again;
    }
    if should_auto_rollback(this_boot, !f.rollback.as_str().is_empty(), health) {
        HealthAction::RollBack(health)
    } else if this_boot {
        HealthAction::GiveUp
    } else {
        HealthAction::Leave
    }
}

/// What is logged of it.
pub fn health_report(a: HealthAction) -> (r: Option<String>)
    ensures
        text_opt(r) == match a {
            HealthAction::Accept => Some("appliance health ok"@),
            HealthAction::RollBack(h) => Some(
                "appliance health failed ("@ + h.text() + "); rolling back"@,
            ),
            _ => None,
        },
{
    match a {
        HealthAction::Accept => Some("appliance health ok".to_owned()),
        HealthAction::RollBack(h) => Some(
            "appliance health failed (".to_owned().concat(h.as_str()).concat("); rolling back"),
        ),
        _ => None,
    }
}

// ---------------------------------------------------------------------------
// Laws
// ---------------------------------------------------------------------------

/// Nothing on the host is changed before the appliance has an owner: a request
/// is replied to at once, or after a look at the images.
pub proof fn law_no_update_without_an_owner(op: Seq<char>, image: Seq<char>, u: UpdateView, e: UpdateEventView)
    requires
        u.stage == update_begin(op, image, false).0,
    ensures
        update_begin(op, image, false).1 is ReadImages || (update_begin(op, image, false).1
            matches UpdateActionView::Reply(v, reboot) && !reboot),
        update_next(u, e).1 matches UpdateActionView::Reply(v, reboot) && !reboot,
{
}

/// Staging never starts the host anew, and neither does going back: only a
/// request for that does, and only where the reply says that it is done.
pub proof fn law_staging_does_not_reboot(op: Seq<char>, image: Seq<char>, admin: bool, u: UpdateView, e: UpdateEventView)
    ensures
        update_begin(op, image, admin).1 matches UpdateActionView::Reply(v, true) ==> op == "reboot"@ && admin
            && v.bool_member("ok"@) == Some(true),
        update_next(u, e).1 matches UpdateActionView::Reply(_, reboot) ==> !reboot,
{
    reveal_strlit("ok");
    reveal_strlit("rebooting");
    assert("ok"@.len() == 2);
    assert("rebooting"@.len() == 9);
}

/// An image is staged only once it is noted, and where staging fails the note
/// is taken away before that is told.
pub proof fn law_staged_image_is_noted(u: UpdateView, e: UpdateEventView)
    ensures
        update_next(u, e).1 is Switch ==> u.stage == UpdateStage::Noting && e == UpdateEventView::Outcome(
            None,
        ) && update_next(u, e).1 == UpdateActionView::Switch(u.image),
        u.stage == UpdateStage::Staging && (e matches UpdateEventView::Outcome(Some(_))) ==> update_next(
            u,
            e,
        ).1 is ClearPending,
{
}

/// The appliance goes back by itself only from the image that is tried, once
/// it was waited long enough, while it does not work, and where there is one to
/// go back to.
pub proof fn law_rollback_is_the_last_resort(pending: Seq<char>, f: HealthFacts, h: ApplianceHealth)
    requires
        health_action(pending, f) == HealthAction::RollBack(h),
    ensures
        is_this_boot(pending, f.booted@),
        f.late,
        f.rollback@.len() > 0,
        h != ApplianceHealth::Healthy,
        h == health_of(f.default_target, f.fwd, f.mgmt, f.netd),
{
}

/// The appliance works just where all of what it needs is there.
pub proof fn law_health_is_all_of_it(default_target: bool, fwd: bool, mgmt: bool, netd: bool)
    ensures
        health_of(default_target, fwd, mgmt, netd) == ApplianceHealth::Healthy <==> default_target && fwd && mgmt
            && netd,
{
}

/// Waiting ends: once it was waited long enough, it is not looked again.
pub proof fn law_waiting_ends(pending: Seq<char>, f: HealthFacts)
    requires
        f.late,
    ensures
        health_action(pending, f) != HealthAction::Again,
{
}

/// Two names of images without a transport and a digest are of one boot just
/// where they are the same; a transport before either of them and a digest
/// behind it change nothing.
pub proof fn law_transport_and_digest_do_not_matter(
    x: Seq<char>,
    y: Seq<char>,
    d: Seq<char>,
    e: Seq<char>,
)
    requires
        !x.contains('@') && !starts_with(x, "docker://"@),
        !y.contains('@') && !starts_with(y, "docker://"@),
    ensures
        is_this_boot(x, y) <==> x == y && x.len() > 0,
        is_this_boot("docker://"@ + x, y) <==> x == y && x.len() > 0,
        is_this_boot(x, "docker://"@ + y) <==> x == y && x.len() > 0,
        is_this_boot(x + "@"@ + d, y + "@"@ + e) <==> x == y && x.len() > 0,
        is_this_boot("docker://"@ + x + "@"@ + d, "docker://"@ + y + "@"@ + e) <==> x == y && x.len() > 0,
{
    lemma_plain_image(x, d);
    lemma_plain_image(y, e);
}

proof fn lemma_plain_image(x: Seq<char>, d: Seq<char>)
    requires
        !x.contains('@') && !starts_with(x, "docker://"@),
    ensures
        plain_image(x) == x,
        plain_image("docker://"@ + x) == x,
        plain_image("docker://"@ + x + "@"@ + d) == x,
        plain_image(x + "@"@ + d) == x,
{
    let t = "docker://"@;
    reveal_strlit("docker://");
    reveal_strlit("@");
    assert("@"@ =~= seq!['@']);
    text::lemma_first(x, '@');
    assert(x.take(x.len() as int) =~= x);
    assert((t + x).take(t.len() as int) =~= t);
    assert((t + x).skip(t.len() as int) =~= x);
    let y = x + "@"@ + d;
    assert((t + x + "@"@ + d).take(t.len() as int) =~= t);
    assert((t + x + "@"@ + d).skip(t.len() as int) =~= y);
    assert forall|j: int| 0 <= j < x.len() implies y[j] != '@' by {
        assert(y[j] == x[j]);
        assert(x.contains(x[j]));
    }
    assert(y[x.len() as int] == '@');
    text::lemma_first_is(y, '@', x.len() as int);
    assert(y.take(x.len() as int) =~= x);
    assert(t.len() == 9);
    if x.len() >= 9 {
        assert(y.take(9) =~= x.take(9));
    } else if starts_with(y, t) {
        assert(y.take(9)[x.len() as int] == t[x.len() as int]);
    }
}

/// Once it was waited long enough, the image that is tried is gone back from
/// wherever any part of the appliance is missing and there is an image to go
/// back to; the reason that is given is a part that is missing.
pub proof fn law_unhealthy_release_is_rolled_back(pending: Seq<char>, f: HealthFacts)
    requires
        is_this_boot(pending, f.booted@),
        f.late,
        f.rollback@.len() > 0,
        !(f.default_target && f.fwd && f.mgmt && f.netd),
    ensures
        health_action(pending, f) is RollBack,
        health_action(pending, f)->RollBack_0 != ApplianceHealth::Healthy,
        health_action(pending, f)->RollBack_0 == ApplianceHealth::DefaultTargetNotReached <==> !f.default_target,
        health_action(pending, f)->RollBack_0 == ApplianceHealth::FwdMissing <==> f.default_target && !f.fwd,
        health_action(pending, f)->RollBack_0 == ApplianceHealth::MgmtMissing <==> f.default_target && f.fwd
            && !f.mgmt,
        health_action(pending, f)->RollBack_0 == ApplianceHealth::NetdNotRunning <==> f.default_target && f.fwd
            && f.mgmt && !f.netd,
{
    lemma_pending_is_there(pending, f.booted@);
}

proof fn lemma_pending_is_there(pending: Seq<char>, booted: Seq<char>)
    requires
        is_this_boot(pending, booted),
    ensures
        pending.len() > 0,
{
    if pending.len() == 0 {
        reveal_strlit("docker://");
        assert(!starts_with(pending, "docker://"@));
        text::lemma_first(pending, '@');
    }
}

/// An image that is tried and works is accepted at once, whether or not it was
/// waited long enough; while it does not work yet it is looked at again until
/// then; and where there is nothing to go back to, it is kept.
pub proof fn law_release_is_given_its_time(pending: Seq<char>, f: HealthFacts)
    requires
        is_this_boot(pending, f.booted@),
    ensures
        f.default_target && f.fwd && f.mgmt && f.netd ==> health_action(pending, f) == HealthAction::Accept,
        !(f.default_target && f.fwd && f.mgmt && f.netd) && !f.late ==> health_action(pending, f)
            == HealthAction::Again,
        !(f.default_target && f.fwd && f.mgmt && f.netd) && f.late && f.rollback@.len() == 0
            ==> health_action(pending, f) == HealthAction::GiveUp,
{
    lemma_pending_is_there(pending, f.booted@);
}

/// Where no image is tried or another one is booted, nothing is done; where it
/// cannot be told yet which one is booted, it is looked again until it was
/// waited long enough.
pub proof fn law_other_boots_are_left_alone(pending: Seq<char>, f: HealthFacts)
    ensures
        pending.len() == 0 ==> health_action(pending, f) == HealthAction::Leave,
        f.booted@.len() > 0 && !is_this_boot(pending, f.booted@) ==> health_action(pending, f)
            == HealthAction::Leave,
        pending.len() > 0 && f.booted@.len() == 0 && !f.late ==> health_action(pending, f)
            == HealthAction::Again,
        pending.len() > 0 && f.booted@.len() == 0 && f.late ==> health_action(pending, f)
            == HealthAction::Leave,
{
    if f.booted@.len() == 0 {
        reveal_strlit("docker://");
        assert(!starts_with(f.booted@, "docker://"@));
        text::lemma_first(f.booted@, '@');
    }
}

/// Whether a reply says that it is done and tells these images.
pub open spec fn tells_images(v: JsonView, i: ImagesView, reboot_required: bool) -> bool {
    &&& v.member("ok"@) == Some(JsonView::Bool(true))
    &&& v.member("reboot_required"@) == Some(JsonView::Bool(reboot_required))
    &&& v.member("booted"@) == Some(JsonView::Text(i.booted))
    &&& v.member("staged"@) == Some(JsonView::Text(i.staged))
    &&& v.member("rollback"@) == Some(JsonView::Text(i.rollback))
}

/// Whether a reply says that it is not done, and why.
pub open spec fn tells_failure(v: JsonView, error: Seq<char>) -> bool {
    v.member("ok"@) == Some(JsonView::Bool(false)) && v.member("error"@) == Some(JsonView::Text(error))
}

proof fn lemma_images_told(i: ImagesView, reboot_required: bool)
    ensures
        tells_images(images_reply(i, reboot_required), i, reboot_required),
{
    reveal_strlit("ok");
    reveal_strlit("reboot_required");
    reveal_strlit("booted");
    reveal_strlit("staged");
    reveal_strlit("rollback");
    assert("booted"@[0] != "staged"@[0]);
    assert("ok"@.len() == 2 && "reboot_required"@.len() == 15 && "booted"@.len() == 6 && "staged"@.len() == 6
        && "rollback"@.len() == 8);
}

proof fn lemma_failure_told(error: Seq<char>)
    ensures
        tells_failure(not_done(error), error),
{
    reveal_strlit("ok");
    reveal_strlit("error");
    assert("ok"@.len() == 2 && "error"@.len() == 5);
}

/// Staging an image runs its whole course: the image is noted, staged, looked
/// at, noted as it is then named, and told; whatever else fails is told with
/// its reason.
pub proof fn law_staging_runs_its_course(image: Seq<char>, u: UpdateView, i: ImagesView, error: Seq<char>)
    requires
        image.len() > 0,
        u.image == image,
    ensures
        update_begin("stage"@, image, true) == (UpdateStage::Noting, UpdateActionView::WritePending(image)),
        u.stage == UpdateStage::Noting ==> {
            let (v, a) = update_next(u, UpdateEventView::Outcome(None));
            v.stage == UpdateStage::Staging && v.image == image && a == UpdateActionView::Switch(image)
        },
        u.stage == UpdateStage::Staging ==> {
            let (v, a) = update_next(u, UpdateEventView::Outcome(None));
            v.stage == UpdateStage::Staged && v.image == image && a is ReadImages
        },
        u.stage == UpdateStage::Staged && i.staged.len() > 0 ==> {
            let (v, a) = update_next(u, UpdateEventView::Images(i));
            v.stage == UpdateStage::Renoting && v.images == i && a == UpdateActionView::WritePending(i.staged)
        },
        u.stage == UpdateStage::Staged && i.staged.len() == 0 ==> (update_next(u, UpdateEventView::Images(i)).1
            matches UpdateActionView::Reply(r, false) && tells_images(r, i, true)),
        u.stage == UpdateStage::Renoting ==> (update_next(u, UpdateEventView::Outcome(None)).1
            matches UpdateActionView::Reply(r, false) && tells_images(r, u.images, true)),
        u.stage == UpdateStage::Noting ==> (update_next(u, UpdateEventView::Outcome(Some(error))).1
            matches UpdateActionView::Reply(r, false) && tells_failure(r, error)),
        u.stage == UpdateStage::Staging ==> {
            let (v, a) = update_next(u, UpdateEventView::Outcome(Some(error)));
            v.stage == UpdateStage::Unnoting && v.error == error && a is ClearPending
        },
        u.stage == UpdateStage::Unnoting ==> (update_next(u, UpdateEventView::Outcome(None)).1
            matches UpdateActionView::Reply(r, false) && tells_failure(r, u.error)),
{
    reveal_strlit("stage");
    reveal_strlit("status");
    reveal_strlit("reboot");
    reveal_strlit("rollback");
    assert("stage"@.len() == 5 && "status"@.len() == 6 && "reboot"@.len() == 6 && "rollback"@.len() == 8);
    lemma_images_told(i, true);
    lemma_images_told(u.images, true);
    lemma_failure_told(error);
    lemma_failure_told(u.error);
}

/// Going back runs its whole course: the image before is gone back to, the note
/// taken away, and what is deployed then is told.
pub proof fn law_rolling_back_runs_its_course(image: Seq<char>, u: UpdateView, i: ImagesView, error: Seq<char>)
    ensures
        update_begin("rollback"@, image, true) == (UpdateStage::RollingBack, UpdateActionView::RollBack),
        u.stage == UpdateStage::RollingBack ==> {
            let (v, a) = update_next(u, UpdateEventView::Outcome(None));
            v.stage == UpdateStage::Forgetting && a is ClearPending
        },
        u.stage == UpdateStage::Forgetting ==> {
            let (v, a) = update_next(u, UpdateEventView::Outcome(None));
            v.stage == UpdateStage::RolledBack && a is ReadImages
        },
        u.stage == UpdateStage::RolledBack ==> (update_next(u, UpdateEventView::Images(i)).1
            matches UpdateActionView::Reply(r, false) && tells_images(r, i, true)),
        u.stage == UpdateStage::RollingBack ==> (update_next(u, UpdateEventView::Outcome(Some(error))).1
            matches UpdateActionView::Reply(r, false) && tells_failure(r, error)),
{
    reveal_strlit("status");
    reveal_strlit("reboot");
    reveal_strlit("rollback");
    assert("status"@.len() == 6 && "reboot"@.len() == 6 && "rollback"@.len() == 8);
    lemma_images_told(i, true);
    lemma_failure_told(error);
}

/// What is deployed is told to anybody; a restart is what it says, and for the
/// owner alone; an image has to be named; and no other request is known.
pub proof fn law_requests_are_answered(op: Seq<char>, image: Seq<char>, admin: bool, u: UpdateView, i: ImagesView)
    ensures
        update_begin("status"@, image, admin) == (UpdateStage::Telling, UpdateActionView::ReadImages),
        u.stage == UpdateStage::Telling ==> (update_next(u, UpdateEventView::Images(i)).1
            matches UpdateActionView::Reply(r, false) && tells_images(r, i, i.staged.len() > 0)),
        update_begin("reboot"@, image, true).1 matches UpdateActionView::Reply(r, true) && r.member("ok"@) == Some(
            JsonView::Bool(true),
        ),
        update_begin("stage"@, Seq::empty(), true).1 matches UpdateActionView::Reply(r, false) && tells_failure(
            r,
            "Host image required"@,
        ),
        op == "stage"@ || op == "rollback"@ || op == "reboot"@ ==> (update_begin(op, image, false).1
            matches UpdateActionView::Reply(r, false) && tells_failure(
            r,
            "Host update refused until an admin exists"@,
        )),
        op != "stage"@ && op != "rollback"@ && op != "reboot"@ && op != "status"@ ==> (update_begin(
            op,
            image,
            admin,
        ).1 matches UpdateActionView::Reply(r, false) && tells_failure(r, "unknown op "@ + op)),
{
    reveal_strlit("stage");
    reveal_strlit("status");
    reveal_strlit("reboot");
    reveal_strlit("rollback");
    reveal_strlit("ok");
    reveal_strlit("rebooting");
    assert("stage"@.len() == 5 && "status"@.len() == 6 && "reboot"@.len() == 6 && "rollback"@.len() == 8
        && "ok"@.len() == 2 && "rebooting"@.len() == 9);
    assert("status"@[0] != "reboot"@[0]);
    lemma_images_told(i, i.staged.len() > 0);
    lemma_failure_told("Host image required"@);
    lemma_failure_told("Host update refused until an admin exists"@);
    lemma_failure_told("unknown op "@ + op);
}

/// An image that a report names is found where `bootc` puts it: under the
/// status, with the name one or two levels down; and, where the report has no
/// status, at its top.
pub proof fn law_images_are_found(
    v: JsonView,
    which: Seq<char>,
    status: JsonView,
    slot: JsonView,
    image: JsonView,
    inner: JsonView,
    name: Seq<char>,
)
    requires
        name.len() > 0,
        (v.member("status"@) == Some(status) && status.member(which) == Some(slot)) || (v.member("status"@) is None
            && which != "status"@ && v.member(which) == Some(slot)),
        slot.member("image"@) == Some(image),
        image.member("image"@) == Some(inner),
        inner == JsonView::Text(name) || inner.member("image"@) == Some(JsonView::Text(name)),
    ensures
        image_of(v, which) == name,
{
    let paths = image_paths(which);
    let f = image_at(v, which);
    assert forall|i: int| 0 <= i < 4 implies #[trigger] f(i) == text_at(v, paths[i]) by {}
    assert(paths[0].skip(1) =~= seq![which, "image"@, "image"@, "image"@]);
    assert(paths[0].skip(1).skip(1) =~= seq!["image"@, "image"@, "image"@]);
    assert(paths[0].skip(1).skip(1).skip(1) =~= seq!["image"@, "image"@]);
    assert(paths[0].skip(1).skip(1).skip(1).skip(1) =~= seq!["image"@]);
    assert(paths[0].skip(1).skip(1).skip(1).skip(1).skip(1) =~= Seq::<Seq<char>>::empty());
    assert(paths[1].skip(1) =~= seq![which, "image"@, "image"@]);
    assert(paths[1].skip(1).skip(1) =~= seq!["image"@, "image"@]);
    assert(paths[1].skip(1).skip(1).skip(1) =~= seq!["image"@]);
    assert(paths[1].skip(1).skip(1).skip(1).skip(1) =~= Seq::<Seq<char>>::empty());
    assert(paths[2].skip(1) =~= seq!["image"@, "image"@, "image"@]);
    assert(paths[2].skip(1).skip(1) =~= seq!["image"@, "image"@]);
    assert(paths[2].skip(1).skip(1).skip(1) =~= seq!["image"@]);
    assert(paths[2].skip(1).skip(1).skip(1).skip(1) =~= Seq::<Seq<char>>::empty());
    assert(paths[3].skip(1) =~= seq!["image"@, "image"@]);
    assert(paths[3].skip(1).skip(1) =~= seq!["image"@]);
    assert(paths[3].skip(1).skip(1).skip(1) =~= Seq::<Seq<char>>::empty());
    reveal_with_fuel(value_at, 7);
    reveal_with_fuel(first_some, 6);
}

/// The host of an image is what stands before its first slash, whether or not the
/// way to fetch it is named before that.
pub proof fn law_hosts_of_images(host: Seq<char>, rest: Seq<char>)
    requires
        !host.contains('/'),
    ensures
        image_host("docker://"@ + host + "/"@ + rest) == host,
        !starts_with(host + "/"@ + rest, "docker://"@) ==> image_host(host + "/"@ + rest) == host,
{
    reveal_strlit("/");
    assert("/"@ =~= seq!['/']);
    text::lemma_split_once(host, '/', rest);
    let t = "docker://"@ + host + "/"@ + rest;
    let n = "docker://"@.len() as int;
    assert(t.take(n) =~= "docker://"@);
    assert(t.skip(n) =~= host + "/"@ + rest);
}

/// The name of a host is what stands before its port, without brackets.
pub proof fn law_names_of_hosts(name: Seq<char>, port: Seq<char>)
    requires
        !port.contains(':'),
        name.len() > 0,
        name[0] != '[' && name[name.len() - 1] != ']',
    ensures
        host_name(name + ":"@ + port) == name,
        host_name("["@ + name + "]"@ + ":"@ + port) == name,
        !name.contains(':') ==> host_name(name) == name,
{
    reveal_strlit(":");
    reveal_strlit("[");
    reveal_strlit("]");
    assert(":"@ =~= seq![':']);
    assert("["@ =~= seq!['[']);
    assert("]"@ =~= seq![']']);
    lemma_port_splits(name, port);
    assert(name.last() != ']');
    assert(without_leading(name, '[') == name);
    assert(without_trailing(name, ']') == name);
    let b = "["@ + name + "]"@;
    lemma_port_splits(b, port);
    let open_name = name + seq![']'];
    assert(b.skip(1) =~= open_name);
    assert(open_name[0] == name[0]);
    assert(without_leading(open_name, '[') == open_name);
    assert(without_leading(b, '[') == open_name);
    assert(open_name.drop_last() =~= name);
    assert(without_trailing(open_name, ']') == name);
}

proof fn lemma_port_splits(name: Seq<char>, port: Seq<char>)
    requires
        !port.contains(':'),
    ensures
        rsplit_once(name + ":"@ + port, ':') == Some((name, port)),
{
    reveal_strlit(":");
    assert(":"@ =~= seq![':']);
    let s = name + ":"@ + port;
    let i = name.len() as int + 1;
    assert(s[i - 1] == ':');
    assert forall|j: int| i <= j < s.len() implies s[j] != ':' by {
        assert(s[j] == port[j - i]);
        assert(port.contains(port[j - i]));
    }
    text::lemma_past_last_is(s, ':', i);
    assert(s.take(i - 1) =~= name);
    assert(s.skip(i) =~= port);
}

/// A registry needs no certificate just where its name is this host or an
/// address.
pub proof fn law_local_registries(image: Seq<char>)
    ensures
        local_registry(image) is Some <==> image_host(image).len() > 0 && (host_name(image_host(image)) == "localhost"@
            || parse(host_name(image_host(image))) is Some),
        local_registry(image) is Some ==> local_registry(image)->0 == image_host(image),
{
}

} // verus!
