//! How an appliance gets its owner: what the operator fills in, and the
//! transaction that makes the appliance theirs.

use crate::apply::lemma_reply_keys;
use crate::desired::{copy_ifaces, iface_views, DesiredState, DesiredView, Iface, IfaceView};
use crate::json::{lemma_list_view, list_view, text_list, Json, JsonView};
use crate::policy;
use crate::policy::{
    exposure_rule, fine_role, fine_topology, first_iface, has_role, management_rule, named, or, role_error, shared_link, shared_parent,
    some_role, topology_error, validate_error,
};
use crate::reports::{done, json_list, ok_reply};
use crate::text;
use crate::text::{
    collect, copy_texts, failure, first_some, lemma_collects, is_alphanumeric, is_text, lemma_first_some,
    lemma_first_some_none, same, text_opt, texts, trim, trimmed,
};
use vstd::prelude::*;

verus! {

// ---------------------------------------------------------------------------
// The form
// ---------------------------------------------------------------------------

/// What the operator fills in.
pub struct Bootstrap {
    pub hostname: String,
    pub admin: String,
    pub password: String,
    pub interfaces: Vec<Iface>,
    pub ui_exposure: Vec<String>,
    pub lan_prefix: String,
    pub dhcp_pool: String,
    pub wan_pd: String,
}

/// The longest hostname.
pub const MAX_HOSTNAME: usize = 253;

pub open spec fn hostname_char(c: char) -> bool {
    is_alphanumeric(c) || c == '-' || c == '.'
}

/// A hostname starts with a letter or a digit and does not end with a hyphen.
pub open spec fn is_hostname(s: Seq<char>) -> bool {
    &&& 0 < s.len() <= MAX_HOSTNAME
    &&& is_alphanumeric(s[0])
    &&& s.last() != '-'
    &&& forall|i: int| 0 <= i < s.len() ==> hostname_char(#[trigger] s[i])
}

fn alphanumeric(c: char) -> (r: bool)
    ensures
        r == is_alphanumeric(c),
{
    ('0' <= c && c <= '9') || ('a' <= c && c <= 'z') || ('A' <= c && c <= 'Z')
}

/// Whether a text can be a hostname.
pub fn valid_hostname(name: &str) -> (r: bool)
    ensures
        r == is_hostname(name@),
{
    let v = text::chars_of(name);
    let n: usize = v.len();
    if n == 0 || n > MAX_HOSTNAME || !alphanumeric(v[0]) || v[n - 1] == '-' {
        return false;
    }
    let mut i: usize = 0;
    while i < n
        invariant
            v@ == name@,
            n == v@.len(),
            i <= n,
            forall|j: int| 0 <= j < i ==> hostname_char(#[trigger] name@[j]),
        decreases n - i,
    {
        let c = v[i];
        assert(c == name@[i as int]);
        if !(alphanumeric(c) || c == '-' || c == '.') {
            return false;
        }
        i = i + 1;
    }
    true
}

/// What is wrong with one interface of the form, if anything.
pub open spec fn form_iface_error(i: IfaceView) -> Option<Seq<char>> {
    if trim(i.name).len() == 0 {
        Some("missing NIC name"@)
    } else if i.placement.len() > 0 && i.placement != "mgmt"@ && i.placement != "fwd"@ {
        Some("placement is not a contract; use roles and ui_exposure"@)
    } else {
        role_error(i)
    }
}

pub open spec fn form_iface_rule(v: Seq<IfaceView>) -> spec_fn(int) -> Option<Seq<char>> {
    |i: int| form_iface_error(v[i])
}

/// The state that the form asks for, as far as its topology goes.
pub open spec fn form_topology(b: Bootstrap) -> DesiredView {
    DesiredView {
        revision: 1,
        interfaces: iface_views(b.interfaces@),
        wireguard: Seq::empty(),
        routes: Seq::empty(),
        nft_extra: Seq::empty(),
        qdiscs: Seq::empty(),
        hostname: None,
        lan_prefix: None,
        dhcp_pool: None,
        wan_pd: None,
        ui_exposure: texts(b.ui_exposure@),
        apply_confirmation: false,
    }
}

/// The first rule that the interfaces of the form break.
pub open spec fn form_error(b: Bootstrap) -> Option<Seq<char>> {
    let s = form_topology(b);
    or(
        first_some(s.interfaces.len(), form_iface_rule(s.interfaces)),
        or(
            topology_error(s),
            or(
                first_some(s.ui_exposure.len(), exposure_rule(s)),
                first_some(s.interfaces.len(), management_rule(s)),
            ),
        ),
    )
}

fn check_form_iface(i: &Iface) -> (r: Result<(), String>)
    ensures
        failure(r) == form_iface_error(i@),
{
    if trimmed(i.name.as_str()).as_str().is_empty() {
        return Err("missing NIC name".to_owned());
    }
    let placement = i.placement.as_str();
    if !placement.is_empty() && !same(placement, "mgmt") && !same(placement, "fwd") {
        return Err("placement is not a contract; use roles and ui_exposure".to_owned());
    }
    policy::check_role(i)
}

fn check_form_ifaces(v: &Vec<Iface>) -> (r: Result<(), String>)
    ensures
        failure(r) == first_some(v@.len(), form_iface_rule(iface_views(v@))),
{
    let ghost f = form_iface_rule(iface_views(v@));
    let mut i: usize = 0;
    while i < v.len()
        invariant
            i <= v@.len(),
            f == form_iface_rule(iface_views(v@)),
            first_some(i as nat, f) is None,
        decreases v@.len() - i,
    {
        assert(iface_views(v@)[i as int] == v@[i as int]@);
        match check_form_iface(&v[i]) {
            Ok(_) => {},
            Err(e) => {
                proof {
                    lemma_first_some((i + 1) as nat, v@.len(), f);
                }
                return Err(e);
            },
        }
        i = i + 1;
    }
    Ok(())
}

/// Checks the interfaces of the form.
pub fn validate_bootstrap(b: &Bootstrap) -> (r: Result<(), String>)
    ensures
        failure(r) == form_error(*b),
{
    match check_form_ifaces(&b.interfaces) {
        Ok(_) => {},
        Err(e) => return Err(e),
    }
    let mut s = DesiredState::default();
    s.interfaces = copy_ifaces(&b.interfaces);
    s.ui_exposure = copy_texts(&b.ui_exposure);
    assert(s@ == form_topology(*b));
    match policy::check_topology(&s) {
        Ok(_) => {},
        Err(e) => return Err(e),
    }
    match policy::check_exposure(&s) {
        Ok(_) => {},
        Err(e) => return Err(e),
    }
    policy::check_management(&s)
}

// ---------------------------------------------------------------------------
// The state that the form asks for
// ---------------------------------------------------------------------------

/// An interface of the form; what it does not say is left out.
pub open spec fn form_iface_json(i: IfaceView) -> JsonView {
    let a = JsonView::object().with("name"@, JsonView::Text(i.name));
    let b = if i.placement.len() == 0 {
        a
    } else {
        a.with("placement"@, JsonView::Text(i.placement))
    };
    let c = match i.role {
        Some(x) => b.with("role"@, JsonView::Text(x)),
        None => b,
    };
    let d = if i.addresses.len() == 0 {
        c
    } else {
        c.with("addresses"@, text_list(i.addresses))
    };
    let e = match i.vlan {
        Some(x) => d.with("vlan"@, JsonView::Natural(x as u64)),
        None => d,
    };
    let f = match i.parent {
        Some(x) => e.with("parent"@, JsonView::Text(x)),
        None => e,
    };
    if i.dhcp {
        f.with("dhcp"@, JsonView::Bool(true))
    } else {
        f
    }
}

fn form_iface_value(i: &Iface) -> (r: Json)
    ensures
        r@ == form_iface_json(i@),
{
    let mut v = Json::object().with("name", Json::text(i.name.as_str()));
    if !i.placement.as_str().is_empty() {
        v = v.with("placement", Json::text(i.placement.as_str()));
    }
    if let Some(x) = &i.role {
        v = v.with("role", Json::text(x.as_str()));
    }
    if i.addresses.len() > 0 {
        v = v.with("addresses", Json::texts(&i.addresses));
    }
    if let Some(x) = i.vlan {
        v = v.with("vlan", Json::Natural(x as u64));
    }
    if let Some(x) = &i.parent {
        v = v.with("parent", Json::text(x.as_str()));
    }
    if i.dhcp {
        v = v.with("dhcp", Json::Bool(true));
    }
    v
}

/// A member is there only where its text holds more than white space.
pub open spec fn with_text(v: JsonView, key: Seq<char>, s: Seq<char>) -> JsonView {
    if trim(s).len() == 0 {
        v
    } else {
        v.with(key, JsonView::Text(trim(s)))
    }
}

fn with_trimmed(v: Json, key: &str, s: &str) -> (r: Json)
    requires
        v is Object,
    ensures
        r@ == with_text(v@, key@, s@),
        r is Object,
{
    let t = trimmed(s);
    if t.as_str().is_empty() {
        v
    } else {
        v.with(key, Json::text(t.as_str()))
    }
}

/// The state that the form asks for.
pub open spec fn form_desired(b: Bootstrap) -> JsonView {
    let v = iface_views(b.interfaces@);
    let base = JsonView::object().with("hostname"@, JsonView::Text(trim(b.hostname@))).with(
        "interfaces"@,
        json_list(v.len(), |i: int| form_iface_json(v[i])),
    ).with("ui_exposure"@, text_list(texts(b.ui_exposure@)));
    with_text(
        with_text(with_text(base, "lan_prefix"@, b.lan_prefix@), "dhcp_pool"@, b.dhcp_pool@),
        "wan_pd"@,
        b.wan_pd@,
    )
}

/// The state that the form asks for.
pub fn desired_value(b: &Bootstrap) -> (r: Json)
    ensures
        r@ == form_desired(*b),
{
    let mut out: Vec<Json> = Vec::new();
    let mut i: usize = 0;
    while i < b.interfaces.len()
        invariant
            i <= b.interfaces@.len(),
            out@.len() == i,
            forall|j: int| 0 <= j < i ==> (#[trigger] out@[j])@ == form_iface_json(b.interfaces@[j]@),
        decreases b.interfaces@.len() - i,
    {
        out.push(form_iface_value(&b.interfaces[i]));
        i = i + 1;
    }
    proof {
        lemma_list_view(out@);
        let v = iface_views(b.interfaces@);
        assert(list_view(out@) == Seq::new(v.len(), |i: int| form_iface_json(v[i])));
    }
    let hostname = trimmed(b.hostname.as_str());
    let base = Json::object().with("hostname", Json::text(hostname.as_str())).with(
        "interfaces",
        Json::List(out),
    ).with("ui_exposure", Json::texts(&b.ui_exposure));
    let base = with_trimmed(base, "lan_prefix", b.lan_prefix.as_str());
    let base = with_trimmed(base, "dhcp_pool", b.dhcp_pool.as_str());
    with_trimmed(base, "wan_pd", b.wan_pd.as_str())
}

/// Whether a name is that of an interface that is no WAN.
pub open spec fn exposable_name(s: DesiredView, name: Seq<char>) -> bool {
    match first_iface(s.interfaces, named(name)) {
        Some(i) => !has_role(s.interfaces[i], "wan"@),
        None => false,
    }
}

/// A form that is let through has a WAN and a LAN that are apart, reaches the
/// web interface through none of its WANs, and through every management NIC.
pub proof fn law_form_keeps_the_wan_out(b: Bootstrap)
    requires
        form_error(b) is None,
    ensures
        some_role(form_topology(b), "wan"@),
        some_role(form_topology(b), "lan"@),
        !shared_link(form_topology(b)),
        !shared_parent(form_topology(b)),
        b.ui_exposure@.len() > 0,
        forall|k: int|
            0 <= k < b.ui_exposure@.len() ==> exposable_name(
                form_topology(b),
                #[trigger] form_topology(b).ui_exposure[k],
            ),
        forall|i: int|
            0 <= i < b.interfaces@.len() && has_role(
                #[trigger] form_topology(b).interfaces[i],
                "mgmt"@,
            ) ==> form_topology(b).ui_exposure.contains(form_topology(b).interfaces[i].name),
{
    let s = form_topology(b);
    lemma_first_some_none(s.ui_exposure.len(), exposure_rule(s));
    lemma_first_some_none(s.interfaces.len(), management_rule(s));
    assert forall|k: int| 0 <= k < b.ui_exposure@.len() implies exposable_name(
        s,
        #[trigger] s.ui_exposure[k],
    ) by {
        assert(exposure_rule(s)(k) is None);
    }
    assert forall|i: int|
        0 <= i < b.interfaces@.len() && has_role(#[trigger] s.interfaces[i], "mgmt"@) implies s.ui_exposure.contains(
        s.interfaces[i].name,
    ) by {
        assert(management_rule(s)(i) is None);
    }
}

// ---------------------------------------------------------------------------
// Taking ownership
// ---------------------------------------------------------------------------

/// Why the appliance did not get an owner in the end.
pub enum BootstrapFailure {
    /// It has none.
    Incomplete(String),
    /// It has one.
    Owned(String),
    /// It cannot be told.
    Indeterminate(String),
}

pub enum FailureView {
    Incomplete(Seq<char>),
    Owned(Seq<char>),
    Indeterminate(Seq<char>),
}

pub open spec fn failure_view(r: Result<(), BootstrapFailure>) -> Option<FailureView> {
    match r {
        Ok(_) => None,
        Err(BootstrapFailure::Incomplete(e)) => Some(FailureView::Incomplete(e@)),
        Err(BootstrapFailure::Owned(e)) => Some(FailureView::Owned(e@)),
        Err(BootstrapFailure::Indeterminate(e)) => Some(FailureView::Indeterminate(e@)),
    }
}

/// The reply to a request to take ownership.
pub open spec fn ownership_reply(r: Option<FailureView>) -> JsonView {
    match r {
        None => done(),
        Some(FailureView::Owned(e)) => JsonView::object().with("ok"@, JsonView::Bool(false)).with(
            "bootstrapped"@,
            JsonView::Bool(true),
        ).with("error"@, JsonView::Text(e)).with(
            "next_action"@,
            JsonView::Text("sign in to review and repair configuration"@),
        ),
        Some(FailureView::Indeterminate(e)) => JsonView::object().with("ok"@, JsonView::Bool(false)).with(
            "bootstrapped"@,
            JsonView::Null,
        ).with("outcome"@, JsonView::Text("indeterminate"@)).with("error"@, JsonView::Text(e)).with(
            "next_action"@,
            JsonView::Text("do not retry; reboot and check Appliance status or console"@),
        ),
        Some(FailureView::Incomplete(e)) => JsonView::object().with("ok"@, JsonView::Bool(false)).with(
            "bootstrapped"@,
            JsonView::Bool(false),
        ).with("error"@, JsonView::Text(e)),
    }
}

/// The reply to a request to take ownership.
pub fn bootstrap_reply(r: &Result<(), BootstrapFailure>) -> (j: Json)
    ensures
        j@ == ownership_reply(failure_view(*r)),
{
    match r {
        Ok(_) => ok_reply(),
        Err(BootstrapFailure::Owned(e)) => Json::object().with("ok", Json::Bool(false)).with(
            "bootstrapped",
            Json::Bool(true),
        ).with("error", Json::text(e.as_str())).with(
            "next_action",
            Json::text("sign in to review and repair configuration"),
        ),
        Err(BootstrapFailure::Indeterminate(e)) => Json::object().with("ok", Json::Bool(false)).with(
            "bootstrapped",
            Json::Null,
        ).with("outcome", Json::text("indeterminate")).with("error", Json::text(e.as_str())).with(
            "next_action",
            Json::text("do not retry; reboot and check Appliance status or console"),
        ),
        Err(BootstrapFailure::Incomplete(e)) => Json::object().with("ok", Json::Bool(false)).with(
            "bootstrapped",
            Json::Bool(false),
        ).with("error", Json::text(e.as_str())),
    }
}

/// What is known when ownership is asked for.
pub struct OwnershipFacts {
    /// The administrator that the request is bound to.
    pub admin_subject: Option<String>,
    /// The state that the request asks for, or why it is none; nothing where
    /// the request has none.
    pub desired: Option<Result<DesiredState, String>>,
    /// The first administrator, if there is one.
    pub subject: Option<String>,
    /// The hostname that is kept, without white space at its ends.
    pub hostname: Option<String>,
}

/// Why ownership is refused before anything is done about it, if so.
pub open spec fn ownership_error(f: OwnershipFacts) -> Option<Seq<char>> {
    match (f.admin_subject, f.desired) {
        (None, _) => Some("missing Bootstrap administrator binding"@),
        (_, None) => Some("missing Bootstrap Desired state"@),
        (_, Some(Err(e))) => Some("invalid Bootstrap Desired state: "@ + e@),
        (Some(admin), Some(Ok(s))) => match validate_error(s@) {
            Some(e) => Some(e),
            None => if text_opt(f.subject) != Some(admin@) {
                Some("Bootstrap administrator changed before apply"@)
            } else if s.hostname is None {
                Some("missing Bootstrap hostname"@)
            } else if text_opt(f.hostname) != text_opt(s.hostname) {
                Some("Bootstrap hostname is not durable"@)
            } else {
                None
            },
        },
    }
}

/// How far it has come.
#[derive(Clone, Copy, Debug, PartialEq, Eq, Structural)]
pub enum OwnStage {
    /// The record of the attempt is being written.
    Recording,
    /// The state is being applied.
    Applying,
    /// It is being written.
    Persisting,
    /// Whether the administrator and the hostname are the same is looked at.
    Rechecking,
    /// The mark of ownership is being written.
    Marking,
    /// That failed: whether it is there for good is looked at.
    Probing,
    /// It is not: the mark is being taken away.
    Unmarking,
    /// The configuration of the services is being written.
    Publishing,
    /// They are being started.
    Readying,
    /// What is no longer needed is being taken away.
    Cleaning,
    /// Something failed: whether the mark is there is looked at.
    Asking,
    /// It is not: the attempt is being undone.
    Recovering,
    Over,
}

/// An attempt to take ownership.
pub struct Ownership {
    pub stage: OwnStage,
    pub state: DesiredState,
    pub subject: String,
    pub error: String,
}

#[verifier::ext_equal]
pub struct OwnershipView {
    pub stage: OwnStage,
    pub state: DesiredView,
    pub subject: Seq<char>,
    pub error: Seq<char>,
}

impl View for Ownership {
    type V = OwnershipView;

    open spec fn view(&self) -> OwnershipView {
        OwnershipView {
            stage: self.stage,
            state: self.state@,
            subject: self.subject@,
            error: self.error@,
        }
    }
}

/// What came of what was to be done.
pub enum OwnEvent {
    /// It was done, or not.
    Outcome(Result<(), String>),
    /// The state was applied, or not; its interfaces as they then were.
    Applied(Vec<Iface>, Result<(), String>),
    /// The first administrator, and the hostname that is kept.
    Found(Option<String>, Option<String>),
    /// The answer to a question.
    Answer(bool),
}

pub enum OwnEventView {
    Outcome(Option<Seq<char>>),
    Applied(Seq<IfaceView>, Option<Seq<char>>),
    Found(Option<Seq<char>>, Option<Seq<char>>),
    Answer(bool),
}

impl View for OwnEvent {
    type V = OwnEventView;

    open spec fn view(&self) -> OwnEventView {
        match self {
            OwnEvent::Outcome(r) => OwnEventView::Outcome(failure(*r)),
            OwnEvent::Applied(v, r) => OwnEventView::Applied(iface_views(v@), failure(*r)),
            OwnEvent::Found(s, h) => OwnEventView::Found(text_opt(*s), text_opt(*h)),
            OwnEvent::Answer(b) => OwnEventView::Answer(*b),
        }
    }
}

/// What is to be done next.
pub enum OwnAction {
    /// Write the record of the attempt, with the tagged links that it makes.
    WriteAttempt(Vec<String>),
    /// Apply the state.
    Apply,
    /// Write the state.
    Persist,
    /// Look at the first administrator and the hostname again.
    Recheck,
    /// Write the mark of ownership.
    WriteMarker,
    /// Look whether the mark is there, and its directory safely written.
    ProbeMarker,
    /// Take the mark away.
    RemoveMarker,
    /// Write the configuration of the services.
    Publish,
    /// Start the services.
    SetReady,
    /// Take the first-boot choice and the record of the attempt away.
    CleanUp,
    /// Look whether the mark is there.
    Ask,
    /// Undo the attempt.
    Recover,
    /// All is done.
    Done(Result<(), BootstrapFailure>),
}

pub enum OwnActionView {
    WriteAttempt(Seq<Seq<char>>),
    Apply,
    Persist,
    Recheck,
    WriteMarker,
    ProbeMarker,
    RemoveMarker,
    Publish,
    SetReady,
    CleanUp,
    Ask,
    Recover,
    Done(Option<FailureView>),
}

impl View for OwnAction {
    type V = OwnActionView;

    open spec fn view(&self) -> OwnActionView {
        match self {
            OwnAction::WriteAttempt(v) => OwnActionView::WriteAttempt(texts(v@)),
            OwnAction::Apply => OwnActionView::Apply,
            OwnAction::Persist => OwnActionView::Persist,
            OwnAction::Recheck => OwnActionView::Recheck,
            OwnAction::WriteMarker => OwnActionView::WriteMarker,
            OwnAction::ProbeMarker => OwnActionView::ProbeMarker,
            OwnAction::RemoveMarker => OwnActionView::RemoveMarker,
            OwnAction::Publish => OwnActionView::Publish,
            OwnAction::SetReady => OwnActionView::SetReady,
            OwnAction::CleanUp => OwnActionView::CleanUp,
            OwnAction::Ask => OwnActionView::Ask,
            OwnAction::Recover => OwnActionView::Recover,
            OwnAction::Done(r) => OwnActionView::Done(failure_view(*r)),
        }
    }
}

/// The tagged links that a state makes.
pub open spec fn tagged_at(s: DesiredView) -> spec_fn(int) -> Option<Seq<char>> {
    |i: int|
        if s.interfaces[i].vlan is Some {
            Some(s.interfaces[i].name)
        } else {
            None
        }
}

pub open spec fn tagged_links(s: DesiredView) -> Seq<Seq<char>> {
    collect(s.interfaces.len(), tagged_at(s))
}

fn tagged(s: &DesiredState) -> (r: Vec<String>)
    ensures
        texts(r@) == tagged_links(s@),
{
    let mut out: Vec<String> = Vec::new();
    let ghost f = tagged_at(s@);
    assert(texts(out@) == collect(0, f));
    let mut i: usize = 0;
    while i < s.interfaces.len()
        invariant
            i <= s.interfaces@.len(),
            f == tagged_at(s@),
            texts(out@) == collect(i as nat, f),
        decreases s.interfaces@.len() - i,
    {
        assert(s@.interfaces[i as int] == s.interfaces@[i as int]@);
        if s.interfaces[i].vlan.is_some() {
            text::add_text(&mut out, s.interfaces[i].name.clone());
        }
        i = i + 1;
    }
    out
}

/// Something failed; what that means depends on whether the mark is there.
pub open spec fn own_fail(o: OwnershipView, error: Seq<char>) -> (OwnershipView, OwnActionView) {
    (OwnershipView { stage: OwnStage::Asking, error, ..o }, OwnActionView::Ask)
}

pub open spec fn own_at(o: OwnershipView, stage: OwnStage) -> OwnershipView {
    OwnershipView { stage, ..o }
}

pub open spec fn own_over(o: OwnershipView, r: Option<FailureView>) -> (OwnershipView, OwnActionView) {
    (own_at(o, OwnStage::Over), OwnActionView::Done(r))
}

/// What follows where something was done, and where it was not.
pub open spec fn own_proceed(
    o: OwnershipView,
    r: Option<Seq<char>>,
    stage: OwnStage,
    action: OwnActionView,
) -> (OwnershipView, OwnActionView) {
    match r {
        None => (own_at(o, stage), action),
        Some(e) => own_fail(o, e),
    }
}

/// How it goes on.
pub open spec fn own_next(o: OwnershipView, e: OwnEventView) -> (OwnershipView, OwnActionView) {
    match (o.stage, e) {
        (OwnStage::Recording, OwnEventView::Outcome(r)) => own_proceed(
            o,
            r,
            OwnStage::Applying,
            OwnActionView::Apply,
        ),
        (OwnStage::Applying, OwnEventView::Applied(interfaces, r)) => own_proceed(
            OwnershipView { state: DesiredView { interfaces, ..o.state }, ..o },
            r,
            OwnStage::Persisting,
            OwnActionView::Persist,
        ),
        (OwnStage::Persisting, OwnEventView::Outcome(r)) => own_proceed(
            o,
            r,
            OwnStage::Rechecking,
            OwnActionView::Recheck,
        ),
        (OwnStage::Rechecking, OwnEventView::Found(subject, hostname)) => if subject != Some(o.subject) {
            own_fail(o, "Bootstrap administrator changed during apply"@)
        } else if hostname is None || hostname != o.state.hostname {
            own_fail(o, "Bootstrap hostname changed during apply"@)
        } else {
            (own_at(o, OwnStage::Marking), OwnActionView::WriteMarker)
        },
        (OwnStage::Marking, OwnEventView::Outcome(None)) => (
            own_at(o, OwnStage::Publishing),
            OwnActionView::Publish,
        ),
        (OwnStage::Marking, OwnEventView::Outcome(Some(error))) => (
            OwnershipView { stage: OwnStage::Probing, error, ..o },
            OwnActionView::ProbeMarker,
        ),
        (OwnStage::Probing, OwnEventView::Answer(there)) => if there {
            (own_at(o, OwnStage::Publishing), OwnActionView::Publish)
        } else {
            (own_at(o, OwnStage::Unmarking), OwnActionView::RemoveMarker)
        },
        (OwnStage::Unmarking, OwnEventView::Outcome(None)) => own_fail(
            o,
            "Bootstrap marker was not durable: "@ + o.error,
        ),
        (OwnStage::Unmarking, OwnEventView::Outcome(Some(c))) => own_over(
            o,
            Some(
                FailureView::Indeterminate(
                    "Bootstrap marker durability is uncertain: "@ + o.error + "; cleanup: "@ + c,
                ),
            ),
        ),
        (OwnStage::Publishing, OwnEventView::Outcome(r)) => own_proceed(
            o,
            r,
            OwnStage::Readying,
            OwnActionView::SetReady,
        ),
        (OwnStage::Readying, OwnEventView::Outcome(r)) => own_proceed(
            o,
            r,
            OwnStage::Cleaning,
            OwnActionView::CleanUp,
        ),
        (OwnStage::Cleaning, OwnEventView::Outcome(_)) => own_over(o, None),
        (OwnStage::Asking, OwnEventView::Answer(there)) => if there {
            own_over(
                o,
                Some(FailureView::Owned("Bootstrap ownership is recorded; "@ + o.error)),
            )
        } else {
            (own_at(o, OwnStage::Recovering), OwnActionView::Recover)
        },
        (OwnStage::Recovering, OwnEventView::Outcome(None)) => own_over(
            o,
            Some(FailureView::Incomplete(o.error)),
        ),
        (OwnStage::Recovering, OwnEventView::Outcome(Some(r))) => own_over(
            o,
            Some(FailureView::Incomplete(o.error + "; Bootstrap recovery failed: "@ + r)),
        ),
        _ => own_over(
            o,
            Some(FailureView::Indeterminate("Bootstrap was continued out of turn"@)),
        ),
    }
}

/// Begins to take ownership: the reply is at hand where the appliance has an
/// owner.
pub fn bootstrap_apply(f: OwnershipFacts, bootstrapped: bool) -> (r: (Option<Ownership>, OwnAction))
    ensures
        bootstrapped ==> r.0 is None && r.1@ == OwnActionView::Done(
            Some(FailureView::Owned("already bootstrapped"@)),
        ),
        !bootstrapped ==> r.0 is Some && match ownership_error(f) {
            Some(e) => (r.0->0).stage == OwnStage::Asking && (r.0->0).error@ == e && r.1@
                == OwnActionView::Ask,
            None => (r.0->0)@ == (OwnershipView {
                stage: OwnStage::Recording,
                state: ((f.desired->0)->Ok_0)@,
                subject: (f.admin_subject->0)@,
                error: Seq::empty(),
            }) && r.1@ == OwnActionView::WriteAttempt(tagged_links(((f.desired->0)->Ok_0)@)),
        },
{
    if bootstrapped {
        return (
            None,
            OwnAction::Done(Err(BootstrapFailure::Owned("already bootstrapped".to_owned()))),
        );
    }
    let ghost facts = f;
    match check_ownership(&f) {
        Err(error) => (
            Some(
                Ownership {
                    stage: OwnStage::Asking,
                    state: DesiredState::default(),
                    subject: String::new(),
                    error,
                },
            ),
            OwnAction::Ask,
        ),
        Ok(_) => match (f.admin_subject, f.desired) {
            (Some(subject), Some(Ok(state))) => {
                let links = tagged(&state);
                let error = String::new();
                assert(error@ == Seq::<char>::empty());
                (
                    Some(Ownership { stage: OwnStage::Recording, state, subject, error }),
                    OwnAction::WriteAttempt(links),
                )
            },
            _ => {
                assert(ownership_error(facts) is Some);
                (None, OwnAction::Ask)
            },
        },
    }
}

fn check_ownership(f: &OwnershipFacts) -> (r: Result<(), String>)
    ensures
        failure(r) == ownership_error(*f),
{
    let admin = match &f.admin_subject {
        Some(s) => s,
        None => return Err("missing Bootstrap administrator binding".to_owned()),
    };
    let s = match &f.desired {
        None => return Err("missing Bootstrap Desired state".to_owned()),
        Some(Err(e)) => return Err("invalid Bootstrap Desired state: ".to_owned().concat(e.as_str())),
        Some(Ok(s)) => s,
    };
    match policy::validate(s) {
        Ok(_) => {},
        Err(e) => return Err(e),
    }
    if !is_text(&f.subject, admin.as_str()) {
        return Err("Bootstrap administrator changed before apply".to_owned());
    }
    match &s.hostname {
        None => Err("missing Bootstrap hostname".to_owned()),
        Some(h) => if is_text(&f.hostname, h.as_str()) {
            Ok(())
        } else {
            Err("Bootstrap hostname is not durable".to_owned())
        },
    }
}

impl Ownership {
    fn at(self, stage: OwnStage) -> (r: Ownership)
        ensures
            r@ == own_at(self@, stage),
    {
        Ownership { stage, ..self }
    }

    fn fail(self, error: String) -> (r: (Ownership, OwnAction))
        ensures
            (r.0@, r.1@) == own_fail(self@, error@),
    {
        (Ownership { stage: OwnStage::Asking, error, ..self }, OwnAction::Ask)
    }

    fn over(self, outcome: Result<(), BootstrapFailure>) -> (r: (Ownership, OwnAction))
        ensures
            (r.0@, r.1@) == own_over(self@, failure_view(outcome)),
    {
        (self.at(OwnStage::Over), OwnAction::Done(outcome))
    }

    fn proceed(self, r: Result<(), String>, stage: OwnStage, action: OwnAction) -> (n: (Ownership, OwnAction))
        ensures
            (n.0@, n.1@) == own_proceed(self@, failure(r), stage, action@),
    {
        match r {
            Ok(_) => (self.at(stage), action),
            Err(e) => self.fail(e),
        }
    }

    fn rechecked(self, subject: Option<String>, hostname: Option<String>) -> (n: (Ownership, OwnAction))
        requires
            self.stage == OwnStage::Rechecking,
        ensures
            (n.0@, n.1@) == own_next(self@, OwnEventView::Found(text_opt(subject), text_opt(hostname))),
    {
        if !is_text(&subject, self.subject.as_str()) {
            return self.fail("Bootstrap administrator changed during apply".to_owned());
        }
        let kept = match &self.state.hostname {
            Some(h) => is_text(&hostname, h.as_str()),
            None => false,
        };
        if !kept {
            return self.fail("Bootstrap hostname changed during apply".to_owned());
        }
        (self.at(OwnStage::Marking), OwnAction::WriteMarker)
    }

    /// How it goes on.
    pub fn next(self, e: OwnEvent) -> (n: (Ownership, OwnAction))
        ensures
            (n.0@, n.1@) == own_next(self@, e@),
    {
        match (self.stage, e) {
            (OwnStage::Recording, OwnEvent::Outcome(r)) => self.proceed(
                r,
                OwnStage::Applying,
                OwnAction::Apply,
            ),
            (OwnStage::Applying, OwnEvent::Applied(interfaces, r)) => {
                let mut o = self;
                let ghost before = o@;
                o.state.interfaces = interfaces;
                assert(o@ == (OwnershipView {
                    state: DesiredView { interfaces: iface_views(interfaces@), ..before.state },
                    ..before
                }));
                o.proceed(r, OwnStage::Persisting, OwnAction::Persist)
            },
            (OwnStage::Persisting, OwnEvent::Outcome(r)) => self.proceed(
                r,
                OwnStage::Rechecking,
                OwnAction::Recheck,
            ),
            (OwnStage::Rechecking, OwnEvent::Found(subject, hostname)) => self.rechecked(subject, hostname),
            (OwnStage::Marking, OwnEvent::Outcome(r)) => match r {
                Ok(_) => (self.at(OwnStage::Publishing), OwnAction::Publish),
                Err(error) => (
                    Ownership { stage: OwnStage::Probing, error, ..self },
                    OwnAction::ProbeMarker,
                ),
            },
            (OwnStage::Probing, OwnEvent::Answer(there)) => if there {
                (self.at(OwnStage::Publishing), OwnAction::Publish)
            } else {
                (self.at(OwnStage::Unmarking), OwnAction::RemoveMarker)
            },
            (OwnStage::Unmarking, OwnEvent::Outcome(r)) => match r {
                Ok(_) => {
                    let e = "Bootstrap marker was not durable: ".to_owned().concat(self.error.as_str());
                    self.fail(e)
                },
                Err(c) => {
                    let e = "Bootstrap marker durability is uncertain: ".to_owned().concat(
                        self.error.as_str(),
                    ).concat("; cleanup: ").concat(c.as_str());
                    self.over(Err(BootstrapFailure::Indeterminate(e)))
                },
            },
            (OwnStage::Publishing, OwnEvent::Outcome(r)) => self.proceed(
                r,
                OwnStage::Readying,
                OwnAction::SetReady,
            ),
            (OwnStage::Readying, OwnEvent::Outcome(r)) => self.proceed(
                r,
                OwnStage::Cleaning,
                OwnAction::CleanUp,
            ),
            (OwnStage::Cleaning, OwnEvent::Outcome(_)) => self.over(Ok(())),
            (OwnStage::Asking, OwnEvent::Answer(there)) => if there {
                let e = "Bootstrap ownership is recorded; ".to_owned().concat(self.error.as_str());
                self.over(Err(BootstrapFailure::Owned(e)))
            } else {
                (self.at(OwnStage::Recovering), OwnAction::Recover)
            },
            (OwnStage::Recovering, OwnEvent::Outcome(r)) => {
                let e = match r {
                    Ok(_) => self.error.clone(),
                    Err(x) => self.error.clone().concat("; Bootstrap recovery failed: ").concat(x.as_str()),
                };
                self.over(Err(BootstrapFailure::Incomplete(e)))
            },
            (_, _) => self.over(
                Err(
                    BootstrapFailure::Indeterminate("Bootstrap was continued out of turn".to_owned()),
                ),
            ),
        }
    }
}

// ---------------------------------------------------------------------------
// Laws
// ---------------------------------------------------------------------------

/// The mark of ownership is written only right after the administrator and the
/// hostname were seen to be still those of the request.
pub proof fn law_mark_follows_the_checks(o: OwnershipView, e: OwnEventView)
    requires
        own_next(o, e).1 is WriteMarker,
    ensures
        o.stage == OwnStage::Rechecking,
        e == OwnEventView::Found(Some(o.subject), o.state.hostname),
        o.state.hostname is Some,
{
}

/// An attempt after these events.
#[verifier::opaque]
pub open spec fn own_run(o: OwnershipView, es: Seq<OwnEventView>) -> OwnershipView
    decreases es.len(),
{
    if es.len() == 0 {
        o
    } else {
        own_next(own_run(o, es.drop_last()), es.last()).0
    }
}

/// The event that brings an attempt from one stage to the next on the way to
/// the mark.
pub open spec fn own_leads(from: OwnStage, e: OwnEventView, to: OwnStage) -> bool {
    match to {
        OwnStage::Recording => false,
        OwnStage::Applying => from == OwnStage::Recording && e == OwnEventView::Outcome(None),
        OwnStage::Persisting => from == OwnStage::Applying && (e matches OwnEventView::Applied(_, None)),
        OwnStage::Rechecking => from == OwnStage::Persisting && e == OwnEventView::Outcome(None),
        OwnStage::Marking => from == OwnStage::Rechecking && (e is Found),
        _ => true,
    }
}

/// The last event of a run and the stage before it.
proof fn lemma_own_back(o: OwnershipView, es: Seq<OwnEventView>)
    requires
        o.stage == OwnStage::Recording,
    ensures
        own_run(o, es).stage != OwnStage::Recording ==> es.len() > 0,
        own_run(o, es).subject == o.subject,
        own_run(o, es).state.hostname == o.state.hostname,
        es.len() > 0 ==> own_leads(
            own_run(o, es.take(es.len() - 1)).stage,
            es[es.len() - 1],
            own_run(o, es).stage,
        ),
        es.len() > 0 && own_run(o, es).stage == OwnStage::Marking ==> es[es.len() - 1] == OwnEventView::Found(
            Some(o.subject),
            o.state.hostname,
        ),
        forall|k: int| 0 <= k < es.len() ==> #[trigger] es.take(es.len() - 1).take(k) == es.take(k),
    decreases es.len(),
{
    reveal(own_run);
    if es.len() > 0 {
        assert(es.drop_last() == es.take(es.len() - 1));
        lemma_own_back(o, es.drop_last());
    }
}

/// There is one run to the mark of ownership: the attempt was recorded, the
/// state was applied and written, and the administrator and the hostname were
/// then still those of the request.
pub proof fn law_mark_follows_every_step(o: OwnershipView, es: Seq<OwnEventView>)
    requires
        o.stage == OwnStage::Recording,
        own_run(o, es).stage == OwnStage::Marking,
    ensures
        es.len() == 4,
        es[0] == OwnEventView::Outcome(None),
        es[1] matches OwnEventView::Applied(_, None),
        es[2] == OwnEventView::Outcome(None),
        es[3] == OwnEventView::Found(Some(o.subject), o.state.hostname),
{
    let n = es.len() as int;
    lemma_own_back(o, es);
    lemma_own_back(o, es.take(n - 1));
    lemma_own_back(o, es.take(n - 2));
    lemma_own_back(o, es.take(n - 3));
    lemma_own_back(o, es.take(n - 4));
}

/// The services are started only once the mark is there for good.
pub proof fn law_services_follow_the_mark(o: OwnershipView, e: OwnEventView)
    ensures
        own_next(o, e).1 is Publish ==> (o.stage == OwnStage::Marking && e == OwnEventView::Outcome(None))
            || (o.stage == OwnStage::Probing && e == OwnEventView::Answer(true)),
        own_next(o, e).1 is SetReady ==> o.stage == OwnStage::Publishing && e == OwnEventView::Outcome(None),
{
}

/// An attempt is undone only where the mark is not there, and nothing is
/// reported of a failure before that was looked at.
pub proof fn law_owner_is_never_undone(o: OwnershipView, e: OwnEventView)
    ensures
        own_next(o, e).1 is Recover ==> o.stage == OwnStage::Asking && e == OwnEventView::Answer(false),
        own_next(o, e).1 matches OwnActionView::Done(Some(FailureView::Incomplete(_))) ==> o.stage
            == OwnStage::Recovering,
        own_next(o, e).1 matches OwnActionView::Done(Some(FailureView::Owned(_))) ==> o.stage
            == OwnStage::Asking && e == OwnEventView::Answer(true),
        own_next(o, e).1 == OwnActionView::Done(None) ==> o.stage == OwnStage::Cleaning,
{
}

/// A retry is asked for only where the appliance has no owner: else the reply
/// says what to do instead.
pub proof fn law_reply_tells_who_owns(r: FailureView)
    ensures
        ownership_reply(Some(r)).member("bootstrapped"@) == Some(
            match r {
                FailureView::Owned(_) => JsonView::Bool(true),
                FailureView::Incomplete(_) => JsonView::Bool(false),
                FailureView::Indeterminate(_) => JsonView::Null,
            },
        ),
        ownership_reply(Some(r)).member("next_action"@) is Some <==> !(r is Incomplete),
{
    reveal_strlit("ok");
    reveal_strlit("bootstrapped");
    reveal_strlit("outcome");
    reveal_strlit("error");
    reveal_strlit("next_action");
    assert("ok"@.len() == 2);
    assert("bootstrapped"@.len() == 12);
    assert("outcome"@.len() == 7);
    assert("error"@.len() == 5);
    assert("next_action"@.len() == 11);
}

/// A hostname has 1 to 253 letters, digits, hyphens and dots, of which the first
/// is a letter or a digit and the last no hyphen; and any such text is one.
pub proof fn law_hostnames(s: Seq<char>)
    ensures
        is_hostname(s) <==> {
            &&& 1 <= s.len() <= 253
            &&& s[0] != '-' && s[0] != '.'
            &&& s[s.len() - 1] != '-'
            &&& forall|i: int|
                0 <= i < s.len() ==> {
                    let c = #[trigger] s[i];
                    ('a' <= c && c <= 'z') || ('A' <= c && c <= 'Z') || ('0' <= c && c <= '9') || c == '-' || c
                        == '.'
                }
        },
{
    if is_hostname(s) {
        assert forall|i: int| 0 <= i < s.len() implies {
            let c = #[trigger] s[i];
            ('a' <= c && c <= 'z') || ('A' <= c && c <= 'Z') || ('0' <= c && c <= '9') || c == '-' || c == '.'
        } by {
            assert(hostname_char(s[i]));
        }
    }
}

/// A form is let through just where every NIC has a name, claims no placement of
/// its own and keeps the rules of its role, and all of them fit together.
pub proof fn law_sound_form_is_let_through(b: Bootstrap)
    ensures
        form_error(b) is None <==> (forall|i: int|
            0 <= i < b.interfaces@.len() ==> fine_form_iface(#[trigger] iface_views(b.interfaces@)[i]))
            && fine_topology(form_topology(b)),
{
    let s = form_topology(b);
    let f = form_iface_rule(s.interfaces);
    lemma_first_some_none(s.interfaces.len(), f);
    policy::lemma_fine_fit(s);
    assert forall|i: int| 0 <= i < s.interfaces.len() implies (#[trigger] f(i) is None <==> fine_form_iface(
        s.interfaces[i],
    )) by {
        policy::lemma_fine_role(s.interfaces[i]);
    }
    if first_some(s.interfaces.len(), f) is None {
        assert forall|i: int| 0 <= i < b.interfaces@.len() implies fine_form_iface(
            #[trigger] iface_views(b.interfaces@)[i],
        ) by {
            assert(f(i) is None);
        }
    }
    if forall|i: int|
        0 <= i < b.interfaces@.len() ==> fine_form_iface(#[trigger] iface_views(b.interfaces@)[i]) {
        assert forall|i: int| 0 <= i < s.interfaces.len() implies #[trigger] f(i) is None by {
            assert(fine_form_iface(iface_views(b.interfaces@)[i]));
        }
    }
}

/// Whether a NIC of the form has a name, claims no placement of its own and keeps
/// the rules of its role.
pub open spec fn fine_form_iface(i: IfaceView) -> bool {
    trim(i.name).len() > 0 && (i.placement.len() == 0 || i.placement == "fwd"@) && fine_role(i)
}

/// The state holds what the form says: the hostname, every NIC in its place with
/// what is said of it, where the web interface can be reached, and each part of
/// the addressing that was filled in.
pub proof fn law_form_is_what_is_asked_for(b: Bootstrap, k: int)
    requires
        0 <= k < b.interfaces@.len(),
    ensures
        ({
            let d = form_desired(b);
            &&& d.member("hostname"@) == Some(JsonView::Text(trim(b.hostname@)))
            &&& d.member("ui_exposure"@) == Some(text_list(texts(b.ui_exposure@)))
            &&& d.member("lan_prefix"@) == told(b.lan_prefix@)
            &&& d.member("dhcp_pool"@) == told(b.dhcp_pool@)
            &&& d.member("wan_pd"@) == told(b.wan_pd@)
            &&& d.member("interfaces"@) matches Some(JsonView::List(list)) && list.len() == b.interfaces@.len() && {
                let i = iface_views(b.interfaces@)[k];
                &&& list[k].member("name"@) == Some(JsonView::Text(i.name))
                &&& list[k].member("role"@) == (match i.role {
                    Some(x) => Some(JsonView::Text(x)),
                    None => None,
                })
                &&& list[k].member("addresses"@) == (if i.addresses.len() > 0 {
                    Some(text_list(i.addresses))
                } else {
                    None
                })
                &&& list[k].member("vlan"@) == (match i.vlan {
                    Some(x) => Some(JsonView::Natural(x as u64)),
                    None => None,
                })
                &&& list[k].member("parent"@) == (match i.parent {
                    Some(x) => Some(JsonView::Text(x)),
                    None => None,
                })
                &&& list[k].member("dhcp"@) == (if i.dhcp {
                    Some(JsonView::Bool(true))
                } else {
                    None
                })
            }
        }),
{
    lemma_form_keys();
    let v = iface_views(b.interfaces@);
    lemma_form_iface(v[k]);
    let list = Seq::new(v.len(), |i: int| form_iface_json(v[i]));
    assert(list[k] == form_iface_json(v[k]));
    let base = JsonView::object().with("hostname"@, JsonView::Text(trim(b.hostname@))).with(
        "interfaces"@,
        json_list(v.len(), |i: int| form_iface_json(v[i])),
    ).with("ui_exposure"@, text_list(texts(b.ui_exposure@)));
    let c = with_text(base, "lan_prefix"@, b.lan_prefix@);
    let d = with_text(c, "dhcp_pool"@, b.dhcp_pool@);
    assert(base.member("interfaces"@) == Some(JsonView::List(list)));
    assert(base.member("lan_prefix"@) is None && base.member("dhcp_pool"@) is None && base.member("wan_pd"@) is None);
    assert(c.member("hostname"@) == base.member("hostname"@) && c.member("interfaces"@) == base.member("interfaces"@)
        && c.member("ui_exposure"@) == base.member("ui_exposure"@) && c.member("dhcp_pool"@) is None && c.member(
        "wan_pd"@,
    ) is None);
    assert(d.member("hostname"@) == base.member("hostname"@) && d.member("interfaces"@) == base.member("interfaces"@)
        && d.member("ui_exposure"@) == base.member("ui_exposure"@) && d.member("lan_prefix"@) == c.member("lan_prefix"@)
        && d.member("wan_pd"@) is None);
}

/// The members of a state are different.
pub proof fn lemma_form_keys()
    ensures
        "hostname"@ != "interfaces"@ && "hostname"@ != "ui_exposure"@ && "hostname"@ != "lan_prefix"@ && "hostname"@
            != "dhcp_pool"@ && "hostname"@ != "wan_pd"@,
        "interfaces"@ != "ui_exposure"@ && "interfaces"@ != "lan_prefix"@ && "interfaces"@ != "dhcp_pool"@
            && "interfaces"@ != "wan_pd"@,
        "ui_exposure"@ != "lan_prefix"@ && "ui_exposure"@ != "dhcp_pool"@ && "ui_exposure"@ != "wan_pd"@,
        "lan_prefix"@ != "dhcp_pool"@ && "lan_prefix"@ != "wan_pd"@ && "dhcp_pool"@ != "wan_pd"@,
{
    reveal_strlit("hostname");
    reveal_strlit("interfaces");
    reveal_strlit("ui_exposure");
    reveal_strlit("lan_prefix");
    reveal_strlit("dhcp_pool");
    reveal_strlit("wan_pd");
    assert("hostname"@.len() == 8 && "interfaces"@.len() == 10 && "ui_exposure"@.len() == 11 && "lan_prefix"@.len() == 10
        && "dhcp_pool"@.len() == 9 && "wan_pd"@.len() == 6);
    assert("lan_prefix"@[0] != "interfaces"@[0]);
}

/// What was filled in, without white space at its ends; nothing where there is
/// no more than that.
pub open spec fn told(s: Seq<char>) -> Option<JsonView> {
    if trim(s).len() > 0 {
        Some(JsonView::Text(trim(s)))
    } else {
        None
    }
}

proof fn lemma_form_iface(i: IfaceView)
    ensures
        form_iface_json(i).member("name"@) == Some(JsonView::Text(i.name)),
        form_iface_json(i).member("role"@) == (match i.role {
            Some(x) => Some(JsonView::Text(x)),
            None => None,
        }),
        form_iface_json(i).member("addresses"@) == (if i.addresses.len() > 0 {
            Some(text_list(i.addresses))
        } else {
            None
        }),
        form_iface_json(i).member("vlan"@) == (match i.vlan {
            Some(x) => Some(JsonView::Natural(x as u64)),
            None => None,
        }),
        form_iface_json(i).member("parent"@) == (match i.parent {
            Some(x) => Some(JsonView::Text(x)),
            None => None,
        }),
        form_iface_json(i).member("dhcp"@) == (if i.dhcp {
            Some(JsonView::Bool(true))
        } else {
            None
        }),
{
    lemma_form_iface_keys();
    let a = JsonView::object().with("name"@, JsonView::Text(i.name));
    let b = if i.placement.len() == 0 {
        a
    } else {
        a.with("placement"@, JsonView::Text(i.placement))
    };
    let c = match i.role {
        Some(x) => b.with("role"@, JsonView::Text(x)),
        None => b,
    };
    let d = if i.addresses.len() == 0 {
        c
    } else {
        c.with("addresses"@, text_list(i.addresses))
    };
    let e = match i.vlan {
        Some(x) => d.with("vlan"@, JsonView::Natural(x as u64)),
        None => d,
    };
    let f = match i.parent {
        Some(x) => e.with("parent"@, JsonView::Text(x)),
        None => e,
    };
    assert(f is Object && e is Object && d is Object && c is Object && b is Object);
    assert(b.member("name"@) == a.member("name"@) && b.member("role"@) is None && b.member("addresses"@) is None
        && b.member("vlan"@) is None && b.member("parent"@) is None && b.member("dhcp"@) is None);
    assert(c.member("name"@) == a.member("name"@) && c.member("addresses"@) is None && c.member("vlan"@) is None
        && c.member("parent"@) is None && c.member("dhcp"@) is None);
    assert(d.member("name"@) == a.member("name"@) && d.member("role"@) == c.member("role"@) && d.member("vlan"@) is None
        && d.member("parent"@) is None && d.member("dhcp"@) is None);
    assert(e.member("name"@) == a.member("name"@) && e.member("role"@) == c.member("role"@) && e.member("addresses"@)
        == d.member("addresses"@) && e.member("parent"@) is None && e.member("dhcp"@) is None);
    assert(f.member("name"@) == a.member("name"@) && f.member("role"@) == c.member("role"@) && f.member("addresses"@)
        == d.member("addresses"@) && f.member("vlan"@) == e.member("vlan"@) && f.member("dhcp"@) is None);
}

/// The members of an interface are different.
pub proof fn lemma_form_iface_keys()
    ensures
        "name"@ != "placement"@ && "name"@ != "role"@ && "name"@ != "addresses"@ && "name"@ != "vlan"@ && "name"@
            != "parent"@ && "name"@ != "dhcp"@,
        "placement"@ != "role"@ && "placement"@ != "addresses"@ && "placement"@ != "vlan"@ && "placement"@ != "parent"@
            && "placement"@ != "dhcp"@,
        "role"@ != "addresses"@ && "role"@ != "vlan"@ && "role"@ != "parent"@ && "role"@ != "dhcp"@,
        "addresses"@ != "vlan"@ && "addresses"@ != "parent"@ && "addresses"@ != "dhcp"@,
        "vlan"@ != "parent"@ && "vlan"@ != "dhcp"@ && "parent"@ != "dhcp"@,
{
    reveal_strlit("name");
    reveal_strlit("placement");
    reveal_strlit("role");
    reveal_strlit("addresses");
    reveal_strlit("vlan");
    reveal_strlit("parent");
    reveal_strlit("dhcp");
    assert("name"@.len() == 4 && "placement"@.len() == 9 && "role"@.len() == 4 && "addresses"@.len() == 9 && "vlan"@.len()
        == 4 && "parent"@.len() == 6 && "dhcp"@.len() == 4);
    assert("name"@[0] == 'n' && "role"@[0] == 'r' && "vlan"@[0] == 'v' && "dhcp"@[0] == 'd');
    assert("placement"@[0] == 'p' && "addresses"@[0] == 'a');
}

/// An attempt to take ownership is begun just where the request names the
/// administrator that there is and a state that breaks no rule, whose hostname
/// is the one that is kept.
pub proof fn law_sound_request_is_begun(f: OwnershipFacts)
    ensures
        ownership_error(f) is None <==> {
            &&& f.admin_subject is Some && f.subject is Some && (f.subject->0)@ == (f.admin_subject->0)@
            &&& f.desired is Some && (f.desired->0) is Ok
            &&& {
                let s = (f.desired->0)->Ok_0;
                &&& validate_error(s@) is None
                &&& s.hostname is Some && f.hostname is Some && (f.hostname->0)@ == (s.hostname->0)@
            }
        },
{
}

/// Every tagged link of a state is in the record of the attempt, and no other.
pub proof fn law_tagged_links_are_recorded(s: DesiredView, name: Seq<char>)
    ensures
        tagged_links(s).contains(name) <==> exists|i: int|
            0 <= i < s.interfaces.len() && (#[trigger] s.interfaces[i]).name == name && s.interfaces[i].vlan is Some,
{
    let f = tagged_at(s);
    let v = tagged_links(s);
    if exists|i: int|
        0 <= i < s.interfaces.len() && (#[trigger] s.interfaces[i]).name == name && s.interfaces[i].vlan is Some {
        let i = choose|i: int|
            0 <= i < s.interfaces.len() && (#[trigger] s.interfaces[i]).name == name && s.interfaces[i].vlan is Some;
        lemma_collects(s.interfaces.len(), f, i);
    }
    if v.contains(name) {
        let e = choose|e: int| 0 <= e < v.len() && v[e] == name;
        text::lemma_collected(s.interfaces.len(), f, e);
        let k = choose|k: int| 0 <= k < s.interfaces.len() && #[trigger] f(k) == Some(collect(s.interfaces.len(), f)[e]);
        assert(s.interfaces[k].name == name);
    }
}

/// Where all goes well the attempt is recorded, the state applied and written,
/// the administrator and the hostname looked at again, the mark written, the
/// services configured and started, and what is left over taken away: then the
/// appliance has its owner, whatever came of that last step. The state that is
/// written has the interfaces as they were found.
pub proof fn law_ownership_runs_its_course(o: OwnershipView, interfaces: Seq<IfaceView>, left: Option<Seq<char>>)
    requires
        o.stage == OwnStage::Recording,
        o.state.hostname is Some,
    ensures
        ({
            let fine = OwnEventView::Outcome(None);
            let (a, first) = own_next(o, fine);
            let (b, second) = own_next(a, OwnEventView::Applied(interfaces, None));
            let (c, third) = own_next(b, fine);
            let (d, fourth) = own_next(c, OwnEventView::Found(Some(o.subject), o.state.hostname));
            let (e, fifth) = own_next(d, fine);
            let (f, sixth) = own_next(e, fine);
            let (g, seventh) = own_next(f, fine);
            let (h, eighth) = own_next(g, OwnEventView::Outcome(left));
            &&& first is Apply && a.state == o.state
            &&& second is Persist && b.state == (DesiredView { interfaces, ..o.state })
            &&& third is Recheck
            &&& fourth is WriteMarker
            &&& fifth is Publish
            &&& sixth is SetReady
            &&& seventh is CleanUp && g.state == b.state && g.subject == o.subject
            &&& eighth == OwnActionView::Done(None)
        }),
{
}

/// Whatever fails before the mark is there for good or behind it, the first
/// thing is to look whether the mark is there. Where it is, the appliance has an
/// owner; where it is not, the attempt is undone, and the reply tells the error.
pub proof fn law_failed_ownership_is_undone(o: OwnershipView, error: Seq<char>, interfaces: Seq<IfaceView>)
    ensures
        ({
            let failed = if o.stage == OwnStage::Applying {
                OwnEventView::Applied(interfaces, Some(error))
            } else {
                OwnEventView::Outcome(Some(error))
            };
            let (a, first) = own_next(o, failed);
            let (b, second) = own_next(a, OwnEventView::Answer(false));
            let (c, third) = own_next(b, OwnEventView::Outcome(None));
            let (d, fourth) = own_next(a, OwnEventView::Answer(true));
            (o.stage == OwnStage::Recording || o.stage == OwnStage::Applying || o.stage == OwnStage::Persisting
                || o.stage == OwnStage::Publishing || o.stage == OwnStage::Readying) ==> {
                &&& first is Ask
                &&& second is Recover
                &&& third == OwnActionView::Done(Some(FailureView::Incomplete(error)))
                &&& fourth == OwnActionView::Done(
                    Some(FailureView::Owned("Bootstrap ownership is recorded; "@ + error)),
                )
            }
        }),
        o.stage == OwnStage::Recovering ==> own_next(o, OwnEventView::Outcome(Some(error))).1
            == OwnActionView::Done(
            Some(FailureView::Incomplete(o.error + "; Bootstrap recovery failed: "@ + error)),
        ),
{
}

/// Where the administrator or the hostname is another after the apply, the
/// attempt goes no further.
pub proof fn law_changed_owner_stops_it(o: OwnershipView, subject: Option<Seq<char>>, hostname: Option<Seq<char>>)
    requires
        o.stage == OwnStage::Rechecking,
        subject != Some(o.subject) || hostname is None || hostname != o.state.hostname,
    ensures
        own_next(o, OwnEventView::Found(subject, hostname)).1 is Ask,
        own_next(own_next(o, OwnEventView::Found(subject, hostname)).0, OwnEventView::Answer(false)).1 is Recover,
{
}

/// Where the mark could not be written, what is there decides: where it is there
/// for good, all goes on as if it had been written; else it is taken away, and
/// the attempt undone. Where it cannot be taken away either, nobody can tell.
pub proof fn law_doubtful_mark_is_settled(o: OwnershipView, error: Seq<char>, cleanup: Seq<char>)
    requires
        o.stage == OwnStage::Marking,
    ensures
        ({
            let (a, first) = own_next(o, OwnEventView::Outcome(Some(error)));
            let (b, there) = own_next(a, OwnEventView::Answer(true));
            let (c, missing) = own_next(a, OwnEventView::Answer(false));
            let (d, gone) = own_next(c, OwnEventView::Outcome(None));
            let (e, stuck) = own_next(c, OwnEventView::Outcome(Some(cleanup)));
            &&& first is ProbeMarker
            &&& there is Publish && own_next(b, OwnEventView::Outcome(None)).1 is SetReady
            &&& missing is RemoveMarker
            &&& gone is Ask && d.error == "Bootstrap marker was not durable: "@ + error
            &&& stuck == OwnActionView::Done(
                Some(
                    FailureView::Indeterminate(
                        "Bootstrap marker durability is uncertain: "@ + error + "; cleanup: "@ + cleanup,
                    ),
                ),
            )
        }),
{
}

/// The reply says that all is well just where it is, and else what went wrong.
pub proof fn law_reply_tells_what_came_of_it(r: Option<FailureView>)
    ensures
        ownership_reply(r).member("ok"@) == Some(JsonView::Bool(r is None)),
        ownership_reply(r).member("error"@) == (match r {
            None => None,
            Some(FailureView::Owned(e)) => Some(JsonView::Text(e)),
            Some(FailureView::Incomplete(e)) => Some(JsonView::Text(e)),
            Some(FailureView::Indeterminate(e)) => Some(JsonView::Text(e)),
        }),
        ownership_reply(r).member("outcome"@) == (if r is Some && r->0 is Indeterminate {
            Some(JsonView::Text("indeterminate"@))
        } else {
            None
        }),
{
    lemma_reply_keys();
}

} // verus!
