//! What the network daemon tells of the appliance: the NICs, the accepted
//! state, and the change that waits to be confirmed.

use crate::apply::{principal_json, principal_value};
use crate::desired::{
    DesiredState, DesiredView, Iface, IfaceView, Qdisc, QdiscView, RouteView, StaticRoute, Wg, WgView,
};
use crate::identity::{Principal, PrincipalView};
use crate::journal::{
    accepted_attribution, principal_opt, ApplyAttribution, ApplyOperation, AttributionView, OperationView,
};
use crate::json::{
    lemma_list_view, list_view, natural_or_null, text_list, text_or_null, Json, JsonView,
};
use crate::opt::{opt_view, FirstBootOpt, OptView};
use crate::text::{is_text, same, texts};
use vstd::prelude::*;

verus! {

// ---------------------------------------------------------------------------
// Plain replies
// ---------------------------------------------------------------------------

/// The reply that something was done.
pub open spec fn done() -> JsonView {
    JsonView::object().with("ok"@, JsonView::Bool(true))
}

/// The reply that something was not done.
pub open spec fn not_done(error: Seq<char>) -> JsonView {
    JsonView::object().with("ok"@, JsonView::Bool(false)).with("error"@, JsonView::Text(error))
}

/// The reply that something was done.
pub fn ok_reply() -> (r: Json)
    ensures
        r@ == done(),
        r is Object,
{
    Json::object().with("ok", Json::Bool(true))
}

/// The reply that something was not done.
pub fn error_reply(error: &str) -> (r: Json)
    ensures
        r@ == not_done(error@),
        r is Object,
{
    Json::object().with("ok", Json::Bool(false)).with("error", Json::text(error))
}

/// The reply that tells what came of something.
pub fn outcome_reply(outcome: &Result<(), String>) -> (r: Json)
    ensures
        r@ == match *outcome {
            Ok(_) => done(),
            Err(e) => not_done(e@),
        },
{
    match outcome {
        Ok(_) => ok_reply(),
        Err(e) => error_reply(e.as_str()),
    }
}

// ---------------------------------------------------------------------------
// Lists
// ---------------------------------------------------------------------------

/// The list with an element for each number below `n`.
pub open spec fn json_list(n: nat, f: spec_fn(int) -> JsonView) -> JsonView {
    JsonView::List(Seq::new(n, f))
}

/// A number of sixteen bits, or null where there is none.
pub open spec fn small_or_null(n: Option<u16>) -> JsonView {
    match n {
        Some(x) => JsonView::Natural(x as u64),
        None => JsonView::Null,
    }
}

fn small_value(n: Option<u16>) -> (r: Json)
    ensures
        r@ == small_or_null(n),
{
    match n {
        Some(x) => Json::Natural(x as u64),
        None => Json::Null,
    }
}

fn natural_value(n: Option<u64>) -> (r: Json)
    ensures
        r@ == natural_or_null(n),
{
    match n {
        Some(x) => Json::Natural(x),
        None => Json::Null,
    }
}

// ---------------------------------------------------------------------------
// The state
// ---------------------------------------------------------------------------

/// An interface; a placement is told only where there is one.
pub open spec fn iface_json(i: IfaceView) -> JsonView {
    let base = JsonView::object().with("name"@, JsonView::Text(i.name));
    (if i.placement.len() == 0 {
        base
    } else {
        base.with("placement"@, JsonView::Text(i.placement))
    }).with("role"@, text_or_null(i.role)).with("addresses"@, text_list(i.addresses)).with(
        "vlan"@,
        small_or_null(i.vlan),
    ).with("parent"@, text_or_null(i.parent)).with("dhcp"@, JsonView::Bool(i.dhcp))
}

pub open spec fn route_json(t: RouteView) -> JsonView {
    JsonView::object().with("to"@, JsonView::Text(t.to)).with("via"@, JsonView::Text(t.via)).with(
        "dev"@,
        text_or_null(t.dev),
    )
}

pub open spec fn qdisc_json(q: QdiscView) -> JsonView {
    JsonView::object().with("dev"@, JsonView::Text(q.dev)).with("kind"@, JsonView::Text(q.kind))
}

/// A tunnel with its key.
pub open spec fn wg_json(w: WgView) -> JsonView {
    JsonView::object().with("name"@, JsonView::Text(w.name)).with(
        "private_key"@,
        JsonView::Text(w.private_key),
    ).with("listen_port"@, small_or_null(w.listen_port)).with("addresses"@, text_list(w.addresses))
}

/// A tunnel without its key.
pub open spec fn wg_review(w: WgView) -> JsonView {
    JsonView::object().with("name"@, JsonView::Text(w.name)).with(
        "listen_port"@,
        small_or_null(w.listen_port),
    ).with("addresses"@, text_list(w.addresses))
}

pub open spec fn ifaces_json(v: Seq<IfaceView>) -> JsonView {
    json_list(v.len(), |i: int| iface_json(v[i]))
}

pub open spec fn routes_json(v: Seq<RouteView>) -> JsonView {
    json_list(v.len(), |i: int| route_json(v[i]))
}

pub open spec fn qdiscs_json(v: Seq<QdiscView>) -> JsonView {
    json_list(v.len(), |i: int| qdisc_json(v[i]))
}

/// The tunnels, with their keys or without.
pub open spec fn tunnels_json(v: Seq<WgView>, keys: bool) -> JsonView {
    json_list(
        v.len(),
        |i: int|
            if keys {
                wg_json(v[i])
            } else {
                wg_review(v[i])
            },
    )
}

fn iface_value(i: &Iface) -> (r: Json)
    ensures
        r@ == iface_json(i@),
{
    let base = Json::object().with("name", Json::text(i.name.as_str()));
    let placed = if i.placement.as_str().is_empty() {
        base
    } else {
        base.with("placement", Json::text(i.placement.as_str()))
    };
    placed.with("role", Json::text_or_null(&i.role)).with("addresses", Json::texts(&i.addresses)).with(
        "vlan",
        small_value(i.vlan),
    ).with("parent", Json::text_or_null(&i.parent)).with("dhcp", Json::Bool(i.dhcp))
}

fn route_value(t: &StaticRoute) -> (r: Json)
    ensures
        r@ == route_json(t@),
{
    Json::object().with("to", Json::text(t.to.as_str())).with("via", Json::text(t.via.as_str())).with(
        "dev",
        Json::text_or_null(&t.dev),
    )
}

fn qdisc_value(q: &Qdisc) -> (r: Json)
    ensures
        r@ == qdisc_json(q@),
{
    Json::object().with("dev", Json::text(q.dev.as_str())).with("kind", Json::text(q.kind.as_str()))
}

fn wg_value(w: &Wg, keys: bool) -> (r: Json)
    ensures
        r@ == if keys {
            wg_json(w@)
        } else {
            wg_review(w@)
        },
{
    let base = Json::object().with("name", Json::text(w.name.as_str()));
    let base = if keys {
        base.with("private_key", Json::text(w.private_key.as_str()))
    } else {
        base
    };
    base.with("listen_port", small_value(w.listen_port)).with("addresses", Json::texts(&w.addresses))
}

fn ifaces_value(v: &Vec<Iface>) -> (r: Json)
    ensures
        r@ == ifaces_json(crate::desired::iface_views(v@)),
{
    let mut out: Vec<Json> = Vec::new();
    let mut i: usize = 0;
    while i < v.len()
        invariant
            i <= v@.len(),
            out@.len() == i,
            forall|j: int| 0 <= j < i ==> (#[trigger] out@[j])@ == iface_json(v@[j]@),
        decreases v@.len() - i,
    {
        out.push(iface_value(&v[i]));
        i = i + 1;
    }
    proof {
        lemma_list_view(out@);
        let w = crate::desired::iface_views(v@);
        assert(list_view(out@) == Seq::new(w.len(), |i: int| iface_json(w[i])));
    }
    Json::List(out)
}

fn routes_value(v: &Vec<StaticRoute>) -> (r: Json)
    ensures
        r@ == routes_json(crate::desired::route_views(v@)),
{
    let mut out: Vec<Json> = Vec::new();
    let mut i: usize = 0;
    while i < v.len()
        invariant
            i <= v@.len(),
            out@.len() == i,
            forall|j: int| 0 <= j < i ==> (#[trigger] out@[j])@ == route_json(v@[j]@),
        decreases v@.len() - i,
    {
        out.push(route_value(&v[i]));
        i = i + 1;
    }
    proof {
        lemma_list_view(out@);
        let w = crate::desired::route_views(v@);
        assert(list_view(out@) == Seq::new(w.len(), |i: int| route_json(w[i])));
    }
    Json::List(out)
}

fn qdiscs_value(v: &Vec<Qdisc>) -> (r: Json)
    ensures
        r@ == qdiscs_json(crate::desired::qdisc_views(v@)),
{
    let mut out: Vec<Json> = Vec::new();
    let mut i: usize = 0;
    while i < v.len()
        invariant
            i <= v@.len(),
            out@.len() == i,
            forall|j: int| 0 <= j < i ==> (#[trigger] out@[j])@ == qdisc_json(v@[j]@),
        decreases v@.len() - i,
    {
        out.push(qdisc_value(&v[i]));
        i = i + 1;
    }
    proof {
        lemma_list_view(out@);
        let w = crate::desired::qdisc_views(v@);
        assert(list_view(out@) == Seq::new(w.len(), |i: int| qdisc_json(w[i])));
    }
    Json::List(out)
}

fn tunnels_value(v: &Vec<Wg>, keys: bool) -> (r: Json)
    ensures
        r@ == tunnels_json(crate::desired::wg_views(v@), keys),
{
    let mut out: Vec<Json> = Vec::new();
    let mut i: usize = 0;
    while i < v.len()
        invariant
            i <= v@.len(),
            out@.len() == i,
            forall|j: int|
                0 <= j < i ==> (#[trigger] out@[j])@ == if keys {
                    wg_json(v@[j]@)
                } else {
                    wg_review(v@[j]@)
                },
        decreases v@.len() - i,
    {
        out.push(wg_value(&v[i], keys));
        i = i + 1;
    }
    proof {
        lemma_list_view(out@);
        let w = crate::desired::wg_views(v@);
        assert(tunnels_json(w, keys)->List_0 =~= list_view(out@));
    }
    Json::List(out)
}

/// The complete state, with the keys of its tunnels.
pub open spec fn state_json(s: DesiredView) -> JsonView {
    JsonView::object().with("revision"@, JsonView::Natural(s.revision)).with(
        "interfaces"@,
        ifaces_json(s.interfaces),
    ).with("wireguard"@, tunnels_json(s.wireguard, true)).with("routes"@, routes_json(s.routes)).with(
        "nft_extra"@,
        text_list(s.nft_extra),
    ).with("qdiscs"@, qdiscs_json(s.qdiscs)).with("hostname"@, text_or_null(s.hostname)).with(
        "lan_prefix"@,
        text_or_null(s.lan_prefix),
    ).with("dhcp_pool"@, text_or_null(s.dhcp_pool)).with("wan_pd"@, text_or_null(s.wan_pd)).with(
        "ui_exposure"@,
        text_list(s.ui_exposure),
    ).with("apply_confirmation"@, JsonView::Bool(s.apply_confirmation))
}

/// The complete state.
pub fn state_value(s: &DesiredState) -> (r: Json)
    ensures
        r@ == state_json(s@),
{
    Json::object().with("revision", Json::Natural(s.revision)).with(
        "interfaces",
        ifaces_value(&s.interfaces),
    ).with("wireguard", tunnels_value(&s.wireguard, true)).with("routes", routes_value(&s.routes)).with(
        "nft_extra",
        Json::texts(&s.nft_extra),
    ).with("qdiscs", qdiscs_value(&s.qdiscs)).with("hostname", Json::text_or_null(&s.hostname)).with(
        "lan_prefix",
        Json::text_or_null(&s.lan_prefix),
    ).with("dhcp_pool", Json::text_or_null(&s.dhcp_pool)).with("wan_pd", Json::text_or_null(&s.wan_pd)).with(
        "ui_exposure",
        Json::texts(&s.ui_exposure),
    ).with("apply_confirmation", Json::Bool(s.apply_confirmation))
}

/// What of a state is shown to those who review a change.
pub open spec fn review_of(s: DesiredView) -> JsonView {
    JsonView::object().with("apply_confirmation"@, JsonView::Bool(s.apply_confirmation)).with(
        "hostname"@,
        text_or_null(s.hostname),
    ).with("interfaces"@, ifaces_json(s.interfaces)).with("routes"@, routes_json(s.routes)).with(
        "ui_exposure"@,
        text_list(s.ui_exposure),
    ).with("lan_prefix"@, text_or_null(s.lan_prefix)).with("dhcp_pool"@, text_or_null(s.dhcp_pool)).with(
        "wan_pd"@,
        text_or_null(s.wan_pd),
    ).with("nft_extra"@, text_list(s.nft_extra)).with("qdiscs"@, qdiscs_json(s.qdiscs)).with(
        "wireguard"@,
        tunnels_json(s.wireguard, false),
    )
}

/// What of a state is shown to those who review a change.
pub fn review_projection(s: &DesiredState) -> (r: Json)
    ensures
        r@ == review_of(s@),
{
    Json::object().with("apply_confirmation", Json::Bool(s.apply_confirmation)).with(
        "hostname",
        Json::text_or_null(&s.hostname),
    ).with("interfaces", ifaces_value(&s.interfaces)).with("routes", routes_value(&s.routes)).with(
        "ui_exposure",
        Json::texts(&s.ui_exposure),
    ).with("lan_prefix", Json::text_or_null(&s.lan_prefix)).with(
        "dhcp_pool",
        Json::text_or_null(&s.dhcp_pool),
    ).with("wan_pd", Json::text_or_null(&s.wan_pd)).with("nft_extra", Json::texts(&s.nft_extra)).with(
        "qdiscs",
        qdiscs_value(&s.qdiscs),
    ).with("wireguard", tunnels_value(&s.wireguard, false))
}

/// The same tunnel with another key.
pub open spec fn rekeyed(w: WgView, key: Seq<char>) -> WgView {
    WgView { private_key: key, ..w }
}

/// A review tells nothing of the keys of the tunnels: whatever they are, it is
/// the same.
pub proof fn law_review_hides_private_keys(s: DesiredView, keys: spec_fn(int) -> Seq<char>)
    ensures
        review_of(
            DesiredView {
                wireguard: Seq::new(s.wireguard.len(), |i: int| rekeyed(s.wireguard[i], keys(i))),
                ..s
            },
        ) == review_of(s),
{
    let w = Seq::new(s.wireguard.len(), |i: int| rekeyed(s.wireguard[i], keys(i)));
    assert(tunnels_json(w, false)->List_0 =~= tunnels_json(s.wireguard, false)->List_0);
}

/// The reply to a question for the accepted state.
pub open spec fn desired_reply(accepted: Result<DesiredView, Seq<char>>) -> JsonView {
    match accepted {
        Ok(s) => done().with("desired"@, state_json(s)).with("revision"@, JsonView::Natural(s.revision)),
        Err(e) => not_done(e),
    }
}

pub open spec fn state_result(r: Result<DesiredState, String>) -> Result<DesiredView, Seq<char>> {
    match r {
        Ok(s) => Ok(s@),
        Err(e) => Err(e@),
    }
}

/// The reply to a question for the accepted state.
pub fn get_desired(accepted: &Result<DesiredState, String>) -> (r: Json)
    ensures
        r@ == desired_reply(state_result(*accepted)),
{
    match accepted {
        Ok(s) => ok_reply().with("desired", state_value(s)).with("revision", Json::Natural(s.revision)),
        Err(e) => error_reply(e.as_str()),
    }
}

// ---------------------------------------------------------------------------
// NICs
// ---------------------------------------------------------------------------

pub open spec fn nic_json(name: Seq<char>, addresses: Seq<Seq<char>>) -> JsonView {
    JsonView::object().with("name"@, JsonView::Text(name)).with("addresses"@, text_list(addresses))
}

/// The first-boot choice; an address is told only where there is one.
pub open spec fn opt_json(o: Option<OptView>) -> JsonView {
    match o {
        Some(x) => {
            let base = JsonView::object().with("nic"@, JsonView::Text(x.nic)).with(
                "mode"@,
                JsonView::Text(x.mode),
            );
            match x.cidr {
                Some(c) => base.with("cidr"@, JsonView::Text(c)),
                None => base,
            }
        },
        None => JsonView::Null,
    }
}

fn opt_value(o: &Option<FirstBootOpt>) -> (r: Json)
    ensures
        r@ == opt_json(opt_view(*o)),
{
    match o {
        Some(x) => {
            let base = Json::object().with("nic", Json::text(x.nic.as_str())).with(
                "mode",
                Json::text(x.mode.as_str()),
            );
            match &x.cidr {
                Some(c) => base.with("cidr", Json::text(c.as_str())),
                None => base,
            }
        },
        None => Json::Null,
    }
}

/// The reply to a question for the NICs.
pub open spec fn nics_reply(nics: Seq<(String, Vec<String>)>, o: Option<OptView>) -> JsonView {
    done().with("nics"@, json_list(nics.len(), |i: int| nic_json(nics[i].0@, texts(nics[i].1@)))).with(
        "opt"@,
        opt_json(o),
    )
}

/// The reply to a question for the NICs.
pub fn list_nics_reply(nics: &Vec<(String, Vec<String>)>, o: &Option<FirstBootOpt>) -> (r: Json)
    ensures
        r@ == nics_reply(nics@, opt_view(*o)),
{
    let mut out: Vec<Json> = Vec::new();
    let mut i: usize = 0;
    while i < nics.len()
        invariant
            i <= nics@.len(),
            out@.len() == i,
            forall|j: int| 0 <= j < i ==> (#[trigger] out@[j])@ == nic_json(nics@[j].0@, texts(nics@[j].1@)),
        decreases nics@.len() - i,
    {
        out.push(
            Json::object().with("name", Json::text(nics[i].0.as_str())).with(
                "addresses",
                Json::texts(&nics[i].1),
            ),
        );
        i = i + 1;
    }
    proof {
        lemma_list_view(out@);
        assert(list_view(out@) == Seq::new(
            nics@.len(),
            |i: int| nic_json(nics@[i].0@, texts(nics@[i].1@)),
        ));
    }
    ok_reply().with("nics", Json::List(out)).with("opt", opt_value(o))
}

// ---------------------------------------------------------------------------
// The change that waits
// ---------------------------------------------------------------------------

/// What is told of a change that waits to be confirmed.
pub open spec fn pending_json(op: OperationView, proposed: DesiredView) -> JsonView {
    JsonView::object().with("revision"@, JsonView::Natural(proposed.revision)).with(
        "confirmation_id"@,
        text_or_null(op.confirmation_id),
    ).with("base_revision"@, JsonView::Natural(op.accepted.revision)).with(
        "routes"@,
        routes_json(proposed.routes),
    ).with("applying"@, principal_json(op.applying)).with(
        "expires_at_unix_ms"@,
        natural_or_null(op.expires_at_unix_ms),
    ).with("accepted_review"@, review_of(op.accepted)).with("proposed_review"@, review_of(proposed))
}

/// What is told of who made the accepted state.
pub open spec fn attribution_json(a: Option<AttributionView>) -> JsonView {
    match a {
        Some(x) => JsonView::object().with("revision"@, JsonView::Natural(x.revision)).with(
            "applying"@,
            principal_json(x.applying),
        ).with("confirming"@, principal_json(x.confirming)),
        None => JsonView::Null,
    }
}

pub open spec fn attribution_opt(a: Option<ApplyAttribution>) -> Option<AttributionView> {
    match a {
        Some(x) => Some(x@),
        None => None,
    }
}

pub open spec fn pending_result(r: Result<Option<ApplyOperation>, String>) -> Result<
    Option<OperationView>,
    Seq<char>,
> {
    match r {
        Ok(Some(op)) => Ok(Some(op@)),
        Ok(None) => Ok(None),
        Err(e) => Err(e@),
    }
}

/// An attribution counts only where it is of the revision.
pub open spec fn attributed(a: Option<AttributionView>, revision: u64) -> Option<AttributionView> {
    match a {
        Some(x) => if x.revision == revision {
            Some(x)
        } else {
            None
        },
        None => None,
    }
}

/// The reply to a question for the change that waits.
pub open spec fn confirmation_reply(
    accepted: Result<DesiredView, Seq<char>>,
    pending: Result<Option<OperationView>, Seq<char>>,
    attribution: Option<AttributionView>,
) -> JsonView {
    match accepted {
        Err(e) => not_done(e),
        Ok(s) => match pending {
            Err(e) => not_done(e),
            Ok(Some(op)) if op.proposed is None => not_done("pending Apply revision is missing"@),
            Ok(waiting) => done().with("enabled"@, JsonView::Bool(s.apply_confirmation)).with(
                "accepted_revision"@,
                JsonView::Natural(s.revision),
            ).with(
                "pending"@,
                match waiting {
                    Some(op) => pending_json(op, op.proposed->0),
                    None => JsonView::Null,
                },
            ).with("last_accepted"@, attribution_json(attributed(attribution, s.revision))),
        },
    }
}

/// The reply to a question for the change that waits: `attribution` is the one
/// that was found, of whatever revision.
pub fn apply_confirmation_status(
    accepted: &Result<DesiredState, String>,
    pending: &Result<Option<ApplyOperation>, String>,
    attribution: Option<ApplyAttribution>,
) -> (r: Json)
    ensures
        r@ == confirmation_reply(
            state_result(*accepted),
            pending_result(*pending),
            attribution_opt(attribution),
        ),
{
    let s = match accepted {
        Ok(s) => s,
        Err(e) => return error_reply(e.as_str()),
    };
    let waiting = match pending {
        Err(e) => return error_reply(e.as_str()),
        Ok(None) => Json::Null,
        Ok(Some(op)) => match &op.proposed {
            None => return error_reply("pending Apply revision is missing"),
            Some(p) => Json::object().with("revision", Json::Natural(p.revision)).with(
                "confirmation_id",
                Json::text_or_null(&op.confirmation_id),
            ).with("base_revision", Json::Natural(op.accepted.revision)).with(
                "routes",
                routes_value(&p.routes),
            ).with("applying", principal_value(&op.applying)).with(
                "expires_at_unix_ms",
                natural_value(op.expires_at_unix_ms),
            ).with("accepted_review", review_projection(&op.accepted)).with(
                "proposed_review",
                review_projection(p),
            ),
        },
    };
    let last = match accepted_attribution(attribution, s.revision) {
        Some(a) => Json::object().with("revision", Json::Natural(a.revision)).with(
            "applying",
            principal_value(&a.applying),
        ).with("confirming", principal_value(&a.confirming)),
        None => Json::Null,
    };
    ok_reply().with("enabled", Json::Bool(s.apply_confirmation)).with(
        "accepted_revision",
        Json::Natural(s.revision),
    ).with("pending", waiting).with("last_accepted", last)
}

// ---------------------------------------------------------------------------
// Drafts
// ---------------------------------------------------------------------------

/// Whether a draft is the accepted state: it made that revision, from that
/// version, at the hand of its owner.
pub open spec fn draft_matches(
    accepted: u64,
    a: Option<AttributionView>,
    revision: u64,
    version: Seq<char>,
    owner: PrincipalView,
) -> bool {
    accepted == revision && match attributed(a, revision) {
        Some(x) => x.draft_version == Some(version) && match x.applying {
            Some(actor) => actor.source == owner.source && actor.subject == owner.subject,
            None => false,
        },
        None => false,
    }
}

/// The reply to the question whether a draft is the accepted state.
pub open spec fn draft_reply(
    request: JsonView,
    owner: Option<PrincipalView>,
    recovering: bool,
    accepted: Result<DesiredView, Seq<char>>,
    attribution: Option<AttributionView>,
) -> JsonView {
    if recovering {
        not_done("Accepted Desired state is unavailable during recovery"@)
    } else if request.natural_member("revision"@) is None {
        not_done("Accepted revision is required"@)
    } else if request.text_member("draft_version"@) is None {
        not_done("draft version is required"@)
    } else if owner is None {
        not_done("draft owner is required"@)
    } else {
        match accepted {
            Err(e) => not_done(e),
            Ok(s) => done().with(
                "accepted"@,
                JsonView::Bool(
                    draft_matches(
                        s.revision,
                        attribution,
                        request.natural_member("revision"@)->0,
                        request.text_member("draft_version"@)->0,
                        owner->0,
                    ),
                ),
            ),
        }
    }
}

/// The reply to the question whether a draft is the accepted state: `owner` is
/// the administrator that the request names, `attribution` the one that was
/// found, of whatever revision.
pub fn was_draft_accepted(
    request: &Json,
    owner: &Option<Principal>,
    recovering: bool,
    accepted: &Result<DesiredState, String>,
    attribution: Option<ApplyAttribution>,
) -> (r: Json)
    ensures
        r@ == draft_reply(
            request@,
            principal_opt(*owner),
            recovering,
            state_result(*accepted),
            attribution_opt(attribution),
        ),
{
    if recovering {
        return error_reply("Accepted Desired state is unavailable during recovery");
    }
    let revision: u64 = match request.natural_member("revision") {
        Some(n) => n,
        None => return error_reply("Accepted revision is required"),
    };
    let version = match request.text_member("draft_version") {
        Some(s) => s,
        None => return error_reply("draft version is required"),
    };
    let owner = match owner {
        Some(p) => p,
        None => return error_reply("draft owner is required"),
    };
    let s = match accepted {
        Ok(s) => s,
        Err(e) => return error_reply(e.as_str()),
    };
    let made = match accepted_attribution(attribution, revision) {
        Some(a) => is_text(&a.draft_version, version) && match &a.applying {
            Some(actor) => same(actor.source.as_str(), owner.source.as_str()) && same(
                actor.subject.as_str(),
                owner.subject.as_str(),
            ),
            None => false,
        },
        None => false,
    };
    ok_reply().with("accepted", Json::Bool(s.revision == revision && made))
}

/// No draft is told to be accepted while it cannot be told what is accepted,
/// nor another version of it, nor one that another administrator made.
pub proof fn law_draft_is_its_owners(
    request: JsonView,
    owner: Option<PrincipalView>,
    recovering: bool,
    accepted: Result<DesiredView, Seq<char>>,
    attribution: Option<AttributionView>,
)
    requires
        draft_reply(request, owner, recovering, accepted, attribution).bool_member("accepted"@) == Some(true),
    ensures
        !recovering,
        accepted matches Ok(s) && request.natural_member("revision"@) == Some(s.revision),
        attribution matches Some(a) && a.applying matches Some(p) && owner matches Some(o) && p.source
            == o.source && p.subject == o.subject && a.draft_version == request.text_member("draft_version"@),
{
    reveal_strlit("accepted");
    reveal_strlit("ok");
    reveal_strlit("error");
    assert("accepted"@.len() == 8);
    assert("ok"@.len() == 2);
    assert("error"@.len() == 5);
}

// ---------------------------------------------------------------------------
// Nothing is left out
// ---------------------------------------------------------------------------

/// The members of a state are different.
proof fn lemma_state_keys()
    ensures
        "revision"@.len() == 8 && "revision"@[0] == 'r',
        "interfaces"@.len() == 10 && "interfaces"@[0] == 'i',
        "wireguard"@.len() == 9 && "wireguard"@[0] == 'w',
        "routes"@.len() == 6 && "routes"@[0] == 'r',
        "nft_extra"@.len() == 9 && "nft_extra"@[0] == 'n',
        "qdiscs"@.len() == 6 && "qdiscs"@[0] == 'q',
        "hostname"@.len() == 8 && "hostname"@[0] == 'h',
        "lan_prefix"@.len() == 10 && "lan_prefix"@[0] == 'l',
        "dhcp_pool"@.len() == 9 && "dhcp_pool"@[0] == 'd',
        "wan_pd"@.len() == 6 && "wan_pd"@[0] == 'w',
        "ui_exposure"@.len() == 11,
        "apply_confirmation"@.len() == 18,
{
    reveal_strlit("revision");
    reveal_strlit("interfaces");
    reveal_strlit("wireguard");
    reveal_strlit("routes");
    reveal_strlit("nft_extra");
    reveal_strlit("qdiscs");
    reveal_strlit("hostname");
    reveal_strlit("lan_prefix");
    reveal_strlit("dhcp_pool");
    reveal_strlit("wan_pd");
    reveal_strlit("ui_exposure");
    reveal_strlit("apply_confirmation");
}

/// A state is told in full, each part under its name.
pub proof fn law_state_is_told_in_full(s: DesiredView)
    ensures
        state_json(s).member("revision"@) == Some(JsonView::Natural(s.revision)),
        state_json(s).member("interfaces"@) == Some(ifaces_json(s.interfaces)),
        state_json(s).member("wireguard"@) == Some(tunnels_json(s.wireguard, true)),
        state_json(s).member("routes"@) == Some(routes_json(s.routes)),
        state_json(s).member("nft_extra"@) == Some(text_list(s.nft_extra)),
        state_json(s).member("qdiscs"@) == Some(qdiscs_json(s.qdiscs)),
        state_json(s).member("hostname"@) == Some(text_or_null(s.hostname)),
        state_json(s).member("lan_prefix"@) == Some(text_or_null(s.lan_prefix)),
        state_json(s).member("dhcp_pool"@) == Some(text_or_null(s.dhcp_pool)),
        state_json(s).member("wan_pd"@) == Some(text_or_null(s.wan_pd)),
        state_json(s).member("ui_exposure"@) == Some(text_list(s.ui_exposure)),
        state_json(s).member("apply_confirmation"@) == Some(JsonView::Bool(s.apply_confirmation)),
{
    lemma_state_keys();
}

/// A review tells all of a state but its revision and the keys of its tunnels.
pub proof fn law_review_tells_the_rest(s: DesiredView)
    ensures
        review_of(s).member("interfaces"@) == Some(ifaces_json(s.interfaces)),
        review_of(s).member("wireguard"@) == Some(tunnels_json(s.wireguard, false)),
        review_of(s).member("routes"@) == Some(routes_json(s.routes)),
        review_of(s).member("nft_extra"@) == Some(text_list(s.nft_extra)),
        review_of(s).member("qdiscs"@) == Some(qdiscs_json(s.qdiscs)),
        review_of(s).member("hostname"@) == Some(text_or_null(s.hostname)),
        review_of(s).member("lan_prefix"@) == Some(text_or_null(s.lan_prefix)),
        review_of(s).member("dhcp_pool"@) == Some(text_or_null(s.dhcp_pool)),
        review_of(s).member("wan_pd"@) == Some(text_or_null(s.wan_pd)),
        review_of(s).member("ui_exposure"@) == Some(text_list(s.ui_exposure)),
        review_of(s).member("apply_confirmation"@) == Some(JsonView::Bool(s.apply_confirmation)),
{
    lemma_state_keys();
}

/// The members of what a state holds are different.
proof fn lemma_item_keys()
    ensures
        "name"@.len() == 4 && "name"@[0] == 'n',
        "placement"@.len() == 9 && "placement"@[0] == 'p',
        "role"@.len() == 4 && "role"@[0] == 'r',
        "addresses"@.len() == 9 && "addresses"@[0] == 'a',
        "vlan"@.len() == 4 && "vlan"@[0] == 'v',
        "parent"@.len() == 6,
        "dhcp"@.len() == 4 && "dhcp"@[0] == 'd',
        "to"@.len() == 2,
        "via"@.len() == 3 && "via"@[0] == 'v',
        "dev"@.len() == 3 && "dev"@[0] == 'd',
        "kind"@.len() == 4,
        "private_key"@.len() == 11 && "private_key"@[0] == 'p',
        "listen_port"@.len() == 11 && "listen_port"@[0] == 'l',
{
    reveal_strlit("name");
    reveal_strlit("placement");
    reveal_strlit("role");
    reveal_strlit("addresses");
    reveal_strlit("vlan");
    reveal_strlit("parent");
    reveal_strlit("dhcp");
    reveal_strlit("to");
    reveal_strlit("via");
    reveal_strlit("dev");
    reveal_strlit("kind");
    reveal_strlit("private_key");
    reveal_strlit("listen_port");
}

/// Every interface is told in its place, with all that is said of it.
pub proof fn law_interfaces_are_told(v: Seq<IfaceView>, k: int)
    requires
        0 <= k < v.len(),
    ensures
        ifaces_json(v) matches JsonView::List(l) && l.len() == v.len() && {
            &&& l[k].member("name"@) == Some(JsonView::Text(v[k].name))
            &&& l[k].member("role"@) == Some(text_or_null(v[k].role))
            &&& l[k].member("addresses"@) == Some(text_list(v[k].addresses))
            &&& l[k].member("vlan"@) == Some(small_or_null(v[k].vlan))
            &&& l[k].member("parent"@) == Some(text_or_null(v[k].parent))
            &&& l[k].member("dhcp"@) == Some(JsonView::Bool(v[k].dhcp))
            &&& v[k].placement.len() > 0 ==> l[k].member("placement"@) == Some(JsonView::Text(v[k].placement))
        },
{
    lemma_item_keys();
    let base = JsonView::object().with("name"@, JsonView::Text(v[k].name));
    let b = if v[k].placement.len() == 0 {
        base
    } else {
        base.with("placement"@, JsonView::Text(v[k].placement))
    };
    assert(b is Object);
    assert(b.member("name"@) == Some(JsonView::Text(v[k].name)));
}

/// Every route and every queueing discipline is told in its place.
pub proof fn law_routes_and_qdiscs_are_told(v: Seq<RouteView>, q: Seq<QdiscView>, k: int)
    ensures
        0 <= k < v.len() ==> (routes_json(v) matches JsonView::List(l) && l.len() == v.len() && {
            &&& l[k].member("to"@) == Some(JsonView::Text(v[k].to))
            &&& l[k].member("via"@) == Some(JsonView::Text(v[k].via))
            &&& l[k].member("dev"@) == Some(text_or_null(v[k].dev))
        }),
        0 <= k < q.len() ==> (qdiscs_json(q) matches JsonView::List(l) && l.len() == q.len() && {
            &&& l[k].member("dev"@) == Some(JsonView::Text(q[k].dev))
            &&& l[k].member("kind"@) == Some(JsonView::Text(q[k].kind))
        }),
{
    lemma_item_keys();
}

/// Every tunnel is told in its place, with its key only where keys are told.
pub proof fn law_tunnels_are_told(v: Seq<WgView>, keys: bool, k: int)
    requires
        0 <= k < v.len(),
    ensures
        tunnels_json(v, keys) matches JsonView::List(l) && l.len() == v.len() && {
            &&& l[k].member("name"@) == Some(JsonView::Text(v[k].name))
            &&& l[k].member("listen_port"@) == Some(small_or_null(v[k].listen_port))
            &&& l[k].member("addresses"@) == Some(text_list(v[k].addresses))
            &&& l[k].member("private_key"@) == (if keys {
                Some(JsonView::Text(v[k].private_key))
            } else {
                None
            })
        },
{
    lemma_item_keys();
}

/// Who asks for the accepted state gets it, and its revision.
pub proof fn law_accepted_state_is_told(s: DesiredView, e: Seq<char>)
    ensures
        desired_reply(Ok(s)).member("ok"@) == Some(JsonView::Bool(true)),
        desired_reply(Ok(s)).member("desired"@) == Some(state_json(s)),
        desired_reply(Ok(s)).member("revision"@) == Some(JsonView::Natural(s.revision)),
        desired_reply(Err(e)).member("ok"@) == Some(JsonView::Bool(false)),
        desired_reply(Err(e)).member("error"@) == Some(JsonView::Text(e)),
{
    lemma_status_keys();
}

/// The members of these replies are different.
proof fn lemma_status_keys()
    ensures
        "ok"@.len() == 2,
        "error"@.len() == 5,
        "desired"@.len() == 7 && "desired"@[0] == 'd',
        "revision"@.len() == 8 && "revision"@[0] == 'r',
        "enabled"@.len() == 7 && "enabled"@[0] == 'e',
        "accepted_revision"@.len() == 17,
        "pending"@.len() == 7 && "pending"@[0] == 'p',
        "last_accepted"@.len() == 13 && "last_accepted"@[0] == 'l',
        "confirmation_id"@.len() == 15 && "confirmation_id"@[0] == 'c',
        "base_revision"@.len() == 13 && "base_revision"@[0] == 'b',
        "routes"@.len() == 6,
        "applying"@.len() == 8 && "applying"@[0] == 'a' && "applying"@[1] == 'p',
        "accepted"@.len() == 8 && "accepted"@[0] == 'a' && "accepted"@[1] == 'c',
        "confirming"@.len() == 10,
        "expires_at_unix_ms"@.len() == 18,
        "accepted_review"@.len() == 15 && "accepted_review"@[0] == 'a',
        "proposed_review"@.len() == 15 && "proposed_review"@[0] == 'p',
        "nics"@.len() == 4,
        "opt"@.len() == 3,
{
    reveal_strlit("ok");
    reveal_strlit("error");
    reveal_strlit("desired");
    reveal_strlit("revision");
    reveal_strlit("enabled");
    reveal_strlit("accepted_revision");
    reveal_strlit("pending");
    reveal_strlit("last_accepted");
    reveal_strlit("confirmation_id");
    reveal_strlit("base_revision");
    reveal_strlit("routes");
    reveal_strlit("applying");
    reveal_strlit("accepted");
    reveal_strlit("confirming");
    reveal_strlit("expires_at_unix_ms");
    reveal_strlit("accepted_review");
    reveal_strlit("proposed_review");
    reveal_strlit("nics");
    reveal_strlit("opt");
}

/// What is told of confirmation: whether it is asked for, the accepted revision,
/// the change that waits, if one does, and who made the accepted state, where
/// that is known of this very revision.
pub proof fn law_waiting_change_is_told(
    s: DesiredView,
    waiting: Option<OperationView>,
    attribution: Option<AttributionView>,
)
    requires
        waiting is Some ==> (waiting->0).proposed is Some,
    ensures
        ({
            let r = confirmation_reply(Ok(s), Ok(waiting), attribution);
            &&& r.member("ok"@) == Some(JsonView::Bool(true))
            &&& r.member("enabled"@) == Some(JsonView::Bool(s.apply_confirmation))
            &&& r.member("accepted_revision"@) == Some(JsonView::Natural(s.revision))
            &&& waiting is None ==> r.member("pending"@) == Some(JsonView::Null)
            &&& waiting is Some ==> r.member("pending"@) == Some(pending_json(waiting->0, (waiting->0).proposed->0))
            &&& attribution is Some && (attribution->0).revision == s.revision ==> r.member("last_accepted"@) == Some(
                attribution_json(attribution),
            )
            &&& attribution is None || (attribution->0).revision != s.revision ==> r.member("last_accepted"@) == Some(
                JsonView::Null,
            )
        }),
{
    lemma_status_keys();
}

/// What is told of a change that waits: its revision and identifier, the state
/// that it goes from, its routes, who applied it, until when it can be confirmed,
/// and a review of either state.
pub proof fn law_change_is_told_in_full(op: OperationView, proposed: DesiredView)
    ensures
        ({
            let r = pending_json(op, proposed);
            &&& r.member("revision"@) == Some(JsonView::Natural(proposed.revision))
            &&& r.member("confirmation_id"@) == Some(text_or_null(op.confirmation_id))
            &&& r.member("base_revision"@) == Some(JsonView::Natural(op.accepted.revision))
            &&& r.member("routes"@) == Some(routes_json(proposed.routes))
            &&& r.member("applying"@) == Some(principal_json(op.applying))
            &&& r.member("expires_at_unix_ms"@) == Some(natural_or_null(op.expires_at_unix_ms))
            &&& r.member("accepted_review"@) == Some(review_of(op.accepted))
            &&& r.member("proposed_review"@) == Some(review_of(proposed))
        }),
{
    lemma_status_keys();
}

/// What is told of who made a state: its revision, who applied it and who
/// confirmed it.
pub proof fn law_makers_are_told(a: AttributionView)
    ensures
        attribution_json(Some(a)).member("revision"@) == Some(JsonView::Natural(a.revision)),
        attribution_json(Some(a)).member("applying"@) == Some(principal_json(a.applying)),
        attribution_json(Some(a)).member("confirming"@) == Some(principal_json(a.confirming)),
{
    lemma_status_keys();
}

/// A draft is told to be the accepted state where it is: of that revision, from
/// that version, and applied by its owner; and where any of these is another, it
/// is told not to be.
pub proof fn law_own_draft_is_known(
    request: JsonView,
    s: DesiredView,
    owner: PrincipalView,
    revision: u64,
    version: Seq<char>,
    a: AttributionView,
    actor: PrincipalView,
)
    requires
        request.member("revision"@) == Some(JsonView::Natural(revision)),
        request.member("draft_version"@) == Some(JsonView::Text(version)),
        a.applying == Some(actor),
    ensures
        draft_reply(request, Some(owner), false, Ok(s), Some(a)).member("ok"@) == Some(JsonView::Bool(true)),
        draft_reply(request, Some(owner), false, Ok(s), Some(a)).member("accepted"@) == Some(
            JsonView::Bool(
                s.revision == revision && a.revision == revision && a.draft_version == Some(version) && actor.source
                    == owner.source && actor.subject == owner.subject,
            ),
        ),
        draft_reply(request, Some(owner), false, Ok(s), None).member("accepted"@) == Some(JsonView::Bool(false)),
        draft_reply(request, Some(owner), true, Ok(s), Some(a)).member("ok"@) == Some(JsonView::Bool(false)),
        draft_reply(request, None, false, Ok(s), Some(a)).member("ok"@) == Some(JsonView::Bool(false)),
{
    lemma_status_keys();
}

/// Every NIC is told in its place with its addresses, and with them the first-boot
/// choice.
pub proof fn law_nics_are_told(nics: Seq<(String, Vec<String>)>, o: Option<OptView>, k: int)
    requires
        0 <= k < nics.len(),
    ensures
        ({
            let r = nics_reply(nics, o);
            &&& r.member("ok"@) == Some(JsonView::Bool(true))
            &&& r.member("opt"@) == Some(opt_json(o))
            &&& r.member("nics"@) matches Some(JsonView::List(l)) && l.len() == nics.len() && l[k].member("name"@)
                == Some(JsonView::Text(nics[k].0@)) && l[k].member("addresses"@) == Some(text_list(texts(nics[k].1@)))
        }),
{
    lemma_status_keys();
    lemma_item_keys();
}

/// The first-boot choice is told with its NIC, its way and its address, if it has
/// one.
pub proof fn law_choice_is_told(o: OptView)
    ensures
        opt_json(Some(o)).member("nic"@) == Some(JsonView::Text(o.nic)),
        opt_json(Some(o)).member("mode"@) == Some(JsonView::Text(o.mode)),
        o.cidr is Some ==> opt_json(Some(o)).member("cidr"@) == Some(JsonView::Text(o.cidr->0)),
{
    reveal_strlit("nic");
    reveal_strlit("mode");
    reveal_strlit("cidr");
    assert("nic"@.len() == 3 && "mode"@.len() == 4 && "cidr"@.len() == 4 && "mode"@[0] == 'm' && "cidr"@[0] == 'c');
}

/// A reply tells whether something was done, and else why not.
pub proof fn law_replies_tell_what_happened(e: Seq<char>)
    ensures
        done().member("ok"@) == Some(JsonView::Bool(true)),
        not_done(e).member("ok"@) == Some(JsonView::Bool(false)),
        not_done(e).member("error"@) == Some(JsonView::Text(e)),
{
    lemma_status_keys();
}

} // verus!
