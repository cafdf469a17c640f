//! The steps that bring the network to a Desired state, one after the other.
//!
//! A plan is made here and carried out elsewhere: in order, up to the first
//! step that fails.

use crate::bootstrap_values;
use crate::bootstrap_values::{delegated_subnet, delegated_texts};
use crate::desired::{
    iface_views, DesiredState, DesiredView, Iface, IfaceView, QdiscView, RouteView, StaticRoute, WgView,
};
use crate::exposure::exposure_views;
use crate::lan;
use crate::lan::{
    dhcp4_lines, dhcp6_lines, host_cidr, lan_prefix_of, resolver_lines, with_lan_address,
};
use crate::nft;
use crate::nft::ruleset;
use crate::policy;
use crate::policy::{first_host, has_role, in_role, lan_place, pool_bounds, validate_error};
use crate::text;
use crate::text::{
    collect, concat, copy_texts, decimal, first_some, lemma_collected, lemma_collects, lemma_concat_has,
    lemma_concat_keeps_order, lemma_first_some, lines_text, print,
    same, text_opt, texts,
};
use vstd::prelude::*;

verus! {

/// One step.
#[derive(Debug)]
pub enum Step {
    /// The link has to be there.
    RequireLink(String),
    /// Run `ip` with these arguments.
    Ip(Vec<String>),
    /// Run `ip` with these arguments, unless the link is there.
    IpUnlessLink(String, Vec<String>),
    /// Run `ip` with these arguments where the link is there.
    IpIfLink(String, Vec<String>),
    /// Take a route away; that it is not there is no failure.
    RemoveRoute(Vec<String>),
    /// Give a device an address; that it has it is no failure.
    AddAddress(String, String),
    /// Run `wg` with these arguments and this input.
    Wg(Vec<String>, String),
    /// Run `tc` with these arguments.
    Tc(Vec<String>),
    /// Have a directory; the second text says what for.
    MakeDir(String, String),
    /// Write a file: its path, what for, and what is in it.
    Write(String, String, String),
    /// Take a file away, durably.
    Remove(String),
    /// Set a kernel parameter of an interface: family, name and value.
    Sysctl(String, String, String, String),
    /// Where the link is there, lock it and bring it up.
    LockIfPresent(String),
    /// Lock every Traffic NIC and bring it up.
    LockTrafficNics,
    /// Carry out the first-boot choice, where there is one.
    ApplyOpt,
    /// Stop the DHCP client.
    StopDhcp,
    /// Get an address for the NIC with the DHCP client.
    Dhcp(String),
    /// Put the rules for the NIC's addresses in place, after a wait for a
    /// usable address where that is said.
    Publish(String, bool),
    /// Tear down what the first-boot choice set up.
    SuspendOpt,
    /// Tear it down and forget it.
    DiscardOpt,
    /// Run an nftables script.
    Nft(String),
    /// Fail with this error.
    Fail(String),
}

/// What a step is.
#[verifier::ext_equal]
pub enum StepView {
    RequireLink(Seq<char>),
    Ip(Seq<Seq<char>>),
    IpUnlessLink(Seq<char>, Seq<Seq<char>>),
    IpIfLink(Seq<char>, Seq<Seq<char>>),
    RemoveRoute(Seq<Seq<char>>),
    AddAddress(Seq<char>, Seq<char>),
    Wg(Seq<Seq<char>>, Seq<char>),
    Tc(Seq<Seq<char>>),
    MakeDir(Seq<char>, Seq<char>),
    Write(Seq<char>, Seq<char>, Seq<char>),
    Remove(Seq<char>),
    Sysctl(Seq<char>, Seq<char>, Seq<char>, Seq<char>),
    LockIfPresent(Seq<char>),
    LockTrafficNics,
    ApplyOpt,
    StopDhcp,
    Dhcp(Seq<char>),
    Publish(Seq<char>, bool),
    SuspendOpt,
    DiscardOpt,
    Nft(Seq<char>),
    Fail(Seq<char>),
}

impl View for Step {
    type V = StepView;

    open spec fn view(&self) -> StepView {
        match self {
            Step::RequireLink(n) => StepView::RequireLink(n@),
            Step::Ip(a) => StepView::Ip(texts(a@)),
            Step::IpUnlessLink(n, a) => StepView::IpUnlessLink(n@, texts(a@)),
            Step::IpIfLink(n, a) => StepView::IpIfLink(n@, texts(a@)),
            Step::RemoveRoute(a) => StepView::RemoveRoute(texts(a@)),
            Step::AddAddress(d, c) => StepView::AddAddress(d@, c@),
            Step::Wg(a, i) => StepView::Wg(texts(a@), i@),
            Step::Tc(a) => StepView::Tc(texts(a@)),
            Step::MakeDir(p, l) => StepView::MakeDir(p@, l@),
            Step::Write(p, l, t) => StepView::Write(p@, l@, t@),
            Step::Remove(p) => StepView::Remove(p@),
            Step::Sysctl(n, f, k, v) => StepView::Sysctl(n@, f@, k@, v@),
            Step::LockIfPresent(n) => StepView::LockIfPresent(n@),
            Step::LockTrafficNics => StepView::LockTrafficNics,
            Step::ApplyOpt => StepView::ApplyOpt,
            Step::StopDhcp => StepView::StopDhcp,
            Step::Dhcp(n) => StepView::Dhcp(n@),
            Step::Publish(n, w) => StepView::Publish(n@, *w),
            Step::SuspendOpt => StepView::SuspendOpt,
            Step::DiscardOpt => StepView::DiscardOpt,
            Step::Nft(t) => StepView::Nft(t@),
            Step::Fail(e) => StepView::Fail(e@),
        }
    }
}

pub open spec fn step_views(v: Seq<Step>) -> Seq<StepView> {
    Seq::new(v.len(), |i: int| v[i]@)
}

/// Adds one step at the end.
pub(crate) fn add_step(plan: &mut Vec<Step>, step: Step)
    ensures
        step_views(final(plan)@) == step_views(old(plan)@).push(step@),
{
    plan.push(step);
    assert(step_views(plan@) == step_views(old(plan)@).push(step@));
}

/// Adds steps at the end.
pub(crate) fn add_steps(plan: &mut Vec<Step>, more: Vec<Step>)
    ensures
        step_views(final(plan)@) == step_views(old(plan)@) + step_views(more@),
{
    let ghost base = plan@;
    let mut more = more;
    let ghost tail = more@;
    plan.append(&mut more);
    assert(step_views(plan@) == step_views(base) + step_views(tail));
}

// ---------------------------------------------------------------------------
// Single steps
// ---------------------------------------------------------------------------

pub open spec fn link_up(name: Seq<char>) -> StepView {
    StepView::Ip(seq!["link"@, "set"@, name, "up"@])
}

pub(crate) fn bring_up(name: &str) -> (r: Step)
    ensures
        r@ == link_up(name@),
{
    let args = vec!["link".to_owned(), "set".to_owned(), name.to_owned(), "up".to_owned()];
    assert(texts(args@) == seq!["link"@, "set"@, name@, "up"@]);
    Step::Ip(args)
}

pub open spec fn address_steps(dev: Seq<char>, addresses: Seq<Seq<char>>) -> Seq<StepView> {
    Seq::new(addresses.len(), |k: int| StepView::AddAddress(dev, addresses[k]))
}

fn push_addresses(plan: &mut Vec<Step>, dev: &str, addresses: &Vec<String>)
    ensures
        step_views(final(plan)@) == step_views(old(plan)@) + address_steps(dev@, texts(addresses@)),
{
    let ghost base = step_views(plan@);
    let ghost all = address_steps(dev@, texts(addresses@));
    let mut k: usize = 0;
    assert(base + all.take(0) == base);
    while k < addresses.len()
        invariant
            all == address_steps(dev@, texts(addresses@)),
            k <= addresses@.len(),
            step_views(plan@) == base + all.take(k as int),
        decreases addresses@.len() - k,
    {
        add_step(plan, Step::AddAddress(dev.to_owned(), addresses[k].clone()));
        assert(all.take(k + 1) == all.take(k as int).push(all[k as int]));
        assert(step_views(plan@) == base + all.take(k + 1));
        k = k + 1;
    }
    assert(all.take(k as int) == all);
}

/// The family of a destination, as an option of `ip`.
pub open spec fn family_option(to: Seq<char>) -> Seq<char> {
    if to.contains(':') {
        "-6"@
    } else {
        "-4"@
    }
}

/// The arguments of `ip` that do `verb` to a route.
pub open spec fn route_args(r: RouteView, verb: Seq<char>) -> Seq<Seq<char>> {
    seq![family_option(r.to), "route"@, verb, r.to, "via"@, r.via] + match r.dev {
        Some(d) => seq!["dev"@, d],
        None => Seq::empty(),
    }
}

fn route_words(r: &StaticRoute, verb: &str) -> (a: Vec<String>)
    ensures
        texts(a@) == route_args(r@, verb@),
{
    let family = if text::has_char(r.to.as_str(), ':') {
        "-6"
    } else {
        "-4"
    };
    let mut a = vec![
        family.to_owned(),
        "route".to_owned(),
        verb.to_owned(),
        r.to.clone(),
        "via".to_owned(),
        r.via.clone(),
    ];
    if let Some(d) = &r.dev {
        a.push("dev".to_owned());
        a.push(d.clone());
    }
    assert(texts(a@) == route_args(r@, verb@));
    a
}

// ---------------------------------------------------------------------------
// Links, tunnels, routes, queueing disciplines
// ---------------------------------------------------------------------------

/// A tagged interface is made on its link where it is not there, brought up,
/// and given its addresses.
pub open spec fn vlan_at(s: DesiredView) -> spec_fn(int) -> Seq<StepView> {
    |i: int|
        match s.interfaces[i].vlan {
            Some(vid) => seq![
                StepView::IpUnlessLink(
                    s.interfaces[i].name,
                    seq![
                        "link"@,
                        "add"@,
                        "link"@,
                        policy::link_of(s.interfaces[i]).0,
                        "name"@,
                        s.interfaces[i].name,
                        "type"@,
                        "vlan"@,
                        "id"@,
                        decimal(vid as nat),
                    ],
                ),
                link_up(s.interfaces[i].name),
            ] + address_steps(s.interfaces[i].name, s.interfaces[i].addresses),
            None => Seq::empty(),
        }
}

pub open spec fn vlan_steps(s: DesiredView) -> Seq<StepView> {
    concat(s.interfaces.len(), vlan_at(s))
}

fn push_vlan(plan: &mut Vec<Step>, iface: &Iface, vid: u16)
    requires
        iface.vlan == Some(vid),
    ensures
        step_views(final(plan)@) == step_views(old(plan)@) + (seq![
            StepView::IpUnlessLink(
                iface.name@,
                seq![
                    "link"@,
                    "add"@,
                    "link"@,
                    policy::link_of(iface@).0,
                    "name"@,
                    iface.name@,
                    "type"@,
                    "vlan"@,
                    "id"@,
                    decimal(vid as nat),
                ],
            ),
            link_up(iface.name@),
        ] + address_steps(iface@.name, iface@.addresses)),
{
    let ghost base = step_views(plan@);
    let (parent, _) = policy::l2_key(iface);
    let args = vec![
        "link".to_owned(),
        "add".to_owned(),
        "link".to_owned(),
        parent,
        "name".to_owned(),
        iface.name.clone(),
        "type".to_owned(),
        "vlan".to_owned(),
        "id".to_owned(),
        print(vid as u64),
    ];
    assert(texts(args@) == seq![
        "link"@,
        "add"@,
        "link"@,
        policy::link_of(iface@).0,
        "name"@,
        iface.name@,
        "type"@,
        "vlan"@,
        "id"@,
        decimal(vid as nat),
    ]);
    add_step(plan, Step::IpUnlessLink(iface.name.clone(), args));
    add_step(plan, bring_up(iface.name.as_str()));
    push_addresses(plan, iface.name.as_str(), &iface.addresses);
}

/// The steps for the tagged interfaces.
pub fn program_vlans(s: &DesiredState) -> (r: Vec<Step>)
    ensures
        step_views(r@) == vlan_steps(s@),
{
    let ghost f = vlan_at(s@);
    let mut plan: Vec<Step> = Vec::new();
    let mut i: usize = 0;
    assert(step_views(plan@) == Seq::<StepView>::empty());
    while i < s.interfaces.len()
        invariant
            f == vlan_at(s@),
            i <= s.interfaces@.len(),
            step_views(plan@) == concat(i as nat, f),
        decreases s.interfaces@.len() - i,
    {
        let iface = &s.interfaces[i];
        assert(s@.interfaces[i as int] == iface@);
        match iface.vlan {
            Some(vid) => push_vlan(&mut plan, iface, vid),
            None => {},
        }
        assert(step_views(plan@) == concat(i as nat, f) + f(i as int));
        i = i + 1;
    }
    plan
}

/// The arguments of `wg` for a tunnel, whose key comes on its input.
pub open spec fn wg_args(w: WgView) -> Seq<Seq<char>> {
    seq!["set"@, w.name, "private-key"@, "/dev/stdin"@] + match w.listen_port {
        Some(p) => seq!["listen-port"@, decimal(p as nat)],
        None => Seq::empty(),
    }
}

/// A tunnel is made where it is not there, given its key and port, brought up,
/// and given its addresses.
pub open spec fn wireguard_at(s: DesiredView) -> spec_fn(int) -> Seq<StepView> {
    |i: int|
        seq![
            StepView::IpUnlessLink(
                s.wireguard[i].name,
                seq!["link"@, "add"@, s.wireguard[i].name, "type"@, "wireguard"@],
            ),
            StepView::Wg(wg_args(s.wireguard[i]), s.wireguard[i].private_key),
            link_up(s.wireguard[i].name),
        ] + address_steps(s.wireguard[i].name, s.wireguard[i].addresses)
}

pub open spec fn wireguard_steps(s: DesiredView) -> Seq<StepView> {
    concat(s.wireguard.len(), wireguard_at(s))
}

/// The steps for the tunnels.
pub fn program_wg(s: &DesiredState) -> (r: Vec<Step>)
    ensures
        step_views(r@) == wireguard_steps(s@),
{
    let ghost f = wireguard_at(s@);
    let mut plan: Vec<Step> = Vec::new();
    let mut i: usize = 0;
    assert(step_views(plan@) == Seq::<StepView>::empty());
    while i < s.wireguard.len()
        invariant
            f == wireguard_at(s@),
            i <= s.wireguard@.len(),
            step_views(plan@) == concat(i as nat, f),
        decreases s.wireguard@.len() - i,
    {
        let wg = &s.wireguard[i];
        assert(s@.wireguard[i as int] == wg@);
        let ghost before = step_views(plan@);
        let make = vec![
            "link".to_owned(),
            "add".to_owned(),
            wg.name.clone(),
            "type".to_owned(),
            "wireguard".to_owned(),
        ];
        assert(texts(make@) == seq!["link"@, "add"@, wg.name@, "type"@, "wireguard"@]);
        let mut args = vec![
            "set".to_owned(),
            wg.name.clone(),
            "private-key".to_owned(),
            "/dev/stdin".to_owned(),
        ];
        if let Some(port) = wg.listen_port {
            args.push("listen-port".to_owned());
            args.push(print(port as u64));
        }
        assert(texts(args@) == wg_args(wg@));
        add_step(&mut plan, Step::IpUnlessLink(wg.name.clone(), make));
        add_step(&mut plan, Step::Wg(args, wg.private_key.clone()));
        add_step(&mut plan, bring_up(wg.name.as_str()));
        push_addresses(&mut plan, wg.name.as_str(), &wg.addresses);
        assert(step_views(plan@) == before + f(i as int));
        i = i + 1;
    }
    plan
}

pub open spec fn route_steps(s: DesiredView) -> Seq<StepView> {
    Seq::new(s.routes.len(), |i: int| StepView::Ip(route_args(s.routes[i], "replace"@)))
}

/// The steps for the routes.
pub fn program_routes(s: &DesiredState) -> (r: Vec<Step>)
    ensures
        step_views(r@) == route_steps(s@),
{
    let ghost all = route_steps(s@);
    let mut plan: Vec<Step> = Vec::new();
    let mut i: usize = 0;
    assert(step_views(plan@) == all.take(0));
    while i < s.routes.len()
        invariant
            all == route_steps(s@),
            i <= s.routes@.len(),
            step_views(plan@) == all.take(i as int),
        decreases s.routes@.len() - i,
    {
        assert(s@.routes[i as int] == s.routes@[i as int]@);
        add_step(&mut plan, Step::Ip(route_words(&s.routes[i], "replace")));
        assert(all.take(i + 1) == all.take(i as int).push(all[i as int]));
        i = i + 1;
    }
    assert(all.take(i as int) == all);
    plan
}

pub open spec fn qdisc_args(q: QdiscView) -> Seq<Seq<char>> {
    seq!["qdisc"@, "replace"@, "dev"@, q.dev, "root"@, q.kind]
}

pub open spec fn qdisc_steps(s: DesiredView) -> Seq<StepView> {
    Seq::new(s.qdiscs.len(), |i: int| StepView::Tc(qdisc_args(s.qdiscs[i])))
}

/// The steps for the queueing disciplines.
pub fn program_qdiscs(s: &DesiredState) -> (r: Vec<Step>)
    ensures
        step_views(r@) == qdisc_steps(s@),
{
    let ghost all = qdisc_steps(s@);
    let mut plan: Vec<Step> = Vec::new();
    let mut i: usize = 0;
    assert(step_views(plan@) == all.take(0));
    while i < s.qdiscs.len()
        invariant
            all == qdisc_steps(s@),
            i <= s.qdiscs@.len(),
            step_views(plan@) == all.take(i as int),
        decreases s.qdiscs@.len() - i,
    {
        let q = &s.qdiscs[i];
        assert(s@.qdiscs[i as int] == q@);
        let args = vec![
            "qdisc".to_owned(),
            "replace".to_owned(),
            "dev".to_owned(),
            q.dev.clone(),
            "root".to_owned(),
            q.kind.clone(),
        ];
        assert(texts(args@) == qdisc_args(q@));
        add_step(&mut plan, Step::Tc(args));
        assert(all.take(i + 1) == all.take(i as int).push(all[i as int]));
        i = i + 1;
    }
    assert(all.take(i as int) == all);
    plan
}

/// Whether a state has a route to that destination.
pub open spec fn has_route_to(s: DesiredView, to: Seq<char>) -> bool {
    exists|j: int| 0 <= j < s.routes.len() && (#[trigger] s.routes[j]).to == to
}

pub open spec fn stale_at(previous: DesiredView, proposed: DesiredView) -> spec_fn(int) -> Option<StepView> {
    |i: int|
        if has_route_to(proposed, previous.routes[i].to) {
            None
        } else {
            Some(StepView::RemoveRoute(route_args(previous.routes[i], "del"@)))
        }
}

/// The routes that only the earlier state has are taken away.
pub open spec fn stale_steps(previous: DesiredView, proposed: DesiredView) -> Seq<StepView> {
    collect(previous.routes.len(), stale_at(previous, proposed))
}

fn is_routed(s: &DesiredState, to: &str) -> (r: bool)
    ensures
        r == has_route_to(s@, to@),
{
    let mut j: usize = 0;
    while j < s.routes.len()
        invariant
            j <= s.routes@.len(),
            forall|k: int| 0 <= k < j ==> (#[trigger] s@.routes[k]).to != to@,
        decreases s.routes@.len() - j,
    {
        assert(s@.routes[j as int] == s.routes@[j as int]@);
        if same(s.routes[j].to.as_str(), to) {
            return true;
        }
        j = j + 1;
    }
    false
}

/// The steps that take the routes away that only the earlier state has.
pub fn remove_stale_routes(previous: &DesiredState, proposed: &DesiredState) -> (r: Vec<Step>)
    ensures
        step_views(r@) == stale_steps(previous@, proposed@),
{
    let ghost f = stale_at(previous@, proposed@);
    let mut plan: Vec<Step> = Vec::new();
    let mut i: usize = 0;
    assert(step_views(plan@) == Seq::<StepView>::empty());
    while i < previous.routes.len()
        invariant
            f == stale_at(previous@, proposed@),
            i <= previous.routes@.len(),
            step_views(plan@) == collect(i as nat, f),
        decreases previous.routes@.len() - i,
    {
        let route = &previous.routes[i];
        assert(previous@.routes[i as int] == route@);
        if !is_routed(proposed, route.to.as_str()) {
            add_step(&mut plan, Step::RemoveRoute(route_words(route, "del")));
        }
        i = i + 1;
    }
    plan
}

// ---------------------------------------------------------------------------
// The LAN services
// ---------------------------------------------------------------------------

pub const KEA4_CONF: &'static str = "/var/lib/fwos/kea/kea-dhcp4.conf";

pub const KEA6_CONF: &'static str = "/var/lib/fwos/kea/kea-dhcp6.conf";

pub const UNBOUND_CONF: &'static str = "/var/lib/fwos/unbound/unbound.conf";

/// The services have no configuration.
pub open spec fn no_service_steps() -> Seq<StepView> {
    seq![
        StepView::Remove(KEA4_CONF@),
        StepView::Remove(KEA6_CONF@),
        StepView::Remove(UNBOUND_CONF@),
    ]
}

/// The service for IPv6 where a prefix is delegated, and none where not.
pub open spec fn service6_step(dev: Seq<char>, pd: Option<Seq<char>>) -> StepView {
    match pd {
        Some(p) => match delegated_subnet(p) {
            Some(subnet) => StepView::Write(
                KEA6_CONF@,
                "kea-dhcp6"@,
                lines_text(
                    dhcp6_lines(
                        dev,
                        delegated_texts(subnet).1,
                        delegated_texts(subnet).2,
                        delegated_texts(subnet).3,
                    ),
                ),
            ),
            None => StepView::Remove(KEA6_CONF@),
        },
        None => StepView::Remove(KEA6_CONF@),
    }
}

/// The configurations of the services on the LAN.
pub open spec fn service_steps(
    dev: Seq<char>,
    prefix: Seq<char>,
    host: Seq<char>,
    pool: Option<Seq<char>>,
    pd: Option<Seq<char>>,
) -> Seq<StepView> {
    match pool {
        None => no_service_steps(),
        Some(p) => seq![
            StepView::MakeDir("/var/lib/fwos/kea"@, "kea"@),
            StepView::MakeDir("/var/lib/fwos/unbound"@, "unbound"@),
            StepView::Write(
                KEA4_CONF@,
                "kea-dhcp4"@,
                lines_text(dhcp4_lines(dev, prefix, pool_bounds(p).0, pool_bounds(p).1, host)),
            ),
            service6_step(dev, pd),
            StepView::Write(UNBOUND_CONF@, "unbound"@, lines_text(resolver_lines(host, prefix))),
        ],
    }
}

/// The address that a delegated prefix gives the device.
pub open spec fn delegated_step(dev: Seq<char>, pd: Option<Seq<char>>) -> Seq<StepView> {
    match pd {
        Some(p) => match delegated_subnet(p) {
            Some(subnet) => seq![StepView::AddAddress(dev, delegated_texts(subnet).0)],
            None => Seq::empty(),
        },
        None => Seq::empty(),
    }
}

/// The address on the LAN and, where they are to be published, the services
/// there.
pub open spec fn lan_steps(s: DesiredView, publish: bool) -> Seq<StepView> {
    match (lan_place(s), lan_prefix_of(s)) {
        (Some(k), Some(prefix)) => {
            let dev = s.interfaces[k].name;
            match host_cidr(prefix) {
                None => seq![StepView::Fail("lan_prefix has no v4 host"@)],
                Some(cidr) => seq![StepView::AddAddress(dev, cidr)] + delegated_step(dev, s.wan_pd) + (
                if publish {
                    service_steps(dev, prefix, first_host(prefix)->0, s.dhcp_pool, s.wan_pd)
                } else {
                    Seq::empty()
                }),
            }
        },
        _ => if publish {
            no_service_steps()
        } else {
            Seq::empty()
        },
    }
}

/// The steps that take the configurations of the services away.
pub fn remove_lan_service_configs() -> (r: Vec<Step>)
    ensures
        step_views(r@) == no_service_steps(),
{
    let r = vec![
        Step::Remove(KEA4_CONF.to_owned()),
        Step::Remove(KEA6_CONF.to_owned()),
        Step::Remove(UNBOUND_CONF.to_owned()),
    ];
    assert(step_views(r@) == no_service_steps());
    r
}

fn write_service6(dev: &str, pd: &Option<String>) -> (r: Step)
    ensures
        r@ == service6_step(dev@, text_opt(*pd)),
{
    if let Some(p) = pd {
        if let Some(lan) = bootstrap_values::delegated_lan(p.as_str()) {
            return Step::Write(
                KEA6_CONF.to_owned(),
                "kea-dhcp6".to_owned(),
                lan::kea_dhcp6_conf(
                    dev,
                    lan.subnet_cidr.as_str(),
                    lan.pool_start.as_str(),
                    lan.pool_end.as_str(),
                ),
            );
        }
    }
    Step::Remove(KEA6_CONF.to_owned())
}

fn write_services(dev: &str, prefix: &str, host: &str, pool: &Option<String>, pd: &Option<String>) -> (r: Vec<
    Step,
>)
    ensures
        step_views(r@) == service_steps(dev@, prefix@, host@, text_opt(*pool), text_opt(*pd)),
{
    match pool {
        None => remove_lan_service_configs(),
        Some(p) => {
            let (from, to) = policy::split_pool(p.as_str());
            let r = vec![
                Step::MakeDir("/var/lib/fwos/kea".to_owned(), "kea".to_owned()),
                Step::MakeDir("/var/lib/fwos/unbound".to_owned(), "unbound".to_owned()),
                Step::Write(
                    KEA4_CONF.to_owned(),
                    "kea-dhcp4".to_owned(),
                    lan::kea_dhcp4_conf(dev, prefix, from.as_str(), to.as_str(), host),
                ),
                write_service6(dev, pd),
                Step::Write(
                    UNBOUND_CONF.to_owned(),
                    "unbound".to_owned(),
                    lan::unbound_conf(host, prefix),
                ),
            ];
            assert(step_views(r@) == service_steps(
                dev@,
                prefix@,
                host@,
                text_opt(*pool),
                text_opt(*pd),
            ));
            r
        },
    }
}

/// The steps for the LAN.
pub fn program_lan_services(s: &DesiredState, publish: bool) -> (r: Vec<Step>)
    ensures
        step_views(r@) == lan_steps(s@, publish),
{
    let mut plan: Vec<Step> = Vec::new();
    assert(step_views(plan@) == Seq::<StepView>::empty());
    match (policy::lan_l2(s), lan::service_prefix(s)) {
        (Some(l), Some(prefix)) => {
            match (policy::first_v4_host(prefix.as_str()), lan::lan_host_cidr(prefix.as_str())) {
                (Some(host), Some(cidr)) => {
                    let dev = l.name.as_str();
                    add_step(&mut plan, Step::AddAddress(dev.to_owned(), cidr));
                    assert(step_views(plan@) == seq![StepView::AddAddress(dev@, cidr@)]);
                    let ghost before = step_views(plan@);
                    if let Some(pd) = &s.wan_pd {
                        if let Some(v6) = lan::pd_lan_addr(pd.as_str()) {
                            add_step(&mut plan, Step::AddAddress(dev.to_owned(), v6));
                        }
                    }
                    assert(step_views(plan@) == before + delegated_step(dev@, s@.wan_pd));
                    if publish {
                        add_steps(
                            &mut plan,
                            write_services(
                                dev,
                                prefix.as_str(),
                                host.as_str(),
                                &s.dhcp_pool,
                                &s.wan_pd,
                            ),
                        );
                    }
                    assert(step_views(plan@) == lan_steps(s@, publish));
                },
                _ => {
                    add_step(&mut plan, Step::Fail("lan_prefix has no v4 host".to_owned()));
                    assert(step_views(plan@) == lan_steps(s@, publish));
                },
            }
        },
        _ => {
            if publish {
                plan = remove_lan_service_configs();
            }
        },
    }
    plan
}

// ---------------------------------------------------------------------------
// Applying a state
// ---------------------------------------------------------------------------

/// Whether the addresses that an interface of that name has now are kept: it
/// is untagged and exposes the web interface or is a LAN.
pub open spec fn keeps_addresses(s: DesiredView, name: Seq<char>) -> bool {
    exists|i: int|
        0 <= i < s.interfaces.len() && (#[trigger] s.interfaces[i]).name == name && s.interfaces[i].vlan
            is None && (s.ui_exposure.contains(name) || has_role(s.interfaces[i], "lan"@))
}

/// The addresses that the interface at place `i` was found with, where they
/// are kept and could be read.
pub open spec fn found_addresses(s: DesiredView, found: Seq<Option<Seq<Seq<char>>>>, i: int) -> Option<
    Seq<Seq<char>>,
> {
    if keeps_addresses(s, s.interfaces[i].name) && i < found.len() {
        found[i]
    } else {
        None
    }
}

/// An interface without configured addresses takes over those that it has.
pub open spec fn adopted_iface(s: DesiredView, found: Seq<Option<Seq<Seq<char>>>>, i: int) -> IfaceView {
    match found_addresses(s, found, i) {
        Some(a) => if a.len() > 0 && s.interfaces[i].addresses.len() == 0 {
            IfaceView { addresses: a, ..s.interfaces[i] }
        } else {
            s.interfaces[i]
        },
        None => s.interfaces[i],
    }
}

pub open spec fn adopted(s: DesiredView, found: Seq<Option<Seq<Seq<char>>>>) -> DesiredView {
    DesiredView {
        interfaces: Seq::new(s.interfaces.len(), |i: int| adopted_iface(s, found, i)),
        ..s
    }
}

/// The addresses to put back on an interface: those that it has or, where it
/// has none, those that are configured.
pub open spec fn saved_at(s: DesiredView, found: Seq<Option<Seq<Seq<char>>>>) -> spec_fn(int) -> Option<
    (Seq<char>, Seq<Seq<char>>),
> {
    |i: int|
        match found_addresses(s, found, i) {
            Some(a) => Some(
                (
                    s.interfaces[i].name,
                    if a.len() == 0 {
                        s.interfaces[i].addresses
                    } else {
                        a
                    },
                ),
            ),
            None => None,
        }
}

pub open spec fn saved_addresses(s: DesiredView, found: Seq<Option<Seq<Seq<char>>>>) -> Seq<
    (Seq<char>, Seq<Seq<char>>),
> {
    collect(s.interfaces.len(), saved_at(s, found))
}

pub open spec fn saved_as(saved: Seq<(Seq<char>, Seq<Seq<char>>)>, name: Seq<char>) -> spec_fn(int) -> Option<
    Seq<Seq<char>>,
> {
    |i: int|
        if saved[i].0 == name {
            Some(saved[i].1)
        } else {
            None
        }
}

/// The addresses saved first under that name.
pub open spec fn saved_for(saved: Seq<(Seq<char>, Seq<Seq<char>>)>, name: Seq<char>) -> Seq<Seq<char>> {
    match first_some(saved.len(), saved_as(saved, name)) {
        Some(a) => a,
        None => Seq::empty(),
    }
}

/// An untagged interface has to be there; it is brought up and given its
/// saved and its configured addresses.
pub open spec fn untagged_at(s: DesiredView, saved: Seq<(Seq<char>, Seq<Seq<char>>)>) -> spec_fn(
    int,
) -> Seq<StepView> {
    |i: int|
        if s.interfaces[i].vlan is None {
            seq![StepView::RequireLink(s.interfaces[i].name), link_up(s.interfaces[i].name)]
                + address_steps(s.interfaces[i].name, saved_for(saved, s.interfaces[i].name))
                + address_steps(s.interfaces[i].name, s.interfaces[i].addresses)
        } else {
            Seq::empty()
        }
}

/// What is done with the first-boot choice.
pub open spec fn opt_step(bootstrapped: bool) -> StepView {
    if bootstrapped {
        StepView::DiscardOpt
    } else {
        StepView::SuspendOpt
    }
}

/// All steps of applying a state: links and addresses first, then routes and
/// services, and the firewall rules at the end.
pub open spec fn apply_steps(
    s: DesiredView,
    saved: Seq<(Seq<char>, Seq<Seq<char>>)>,
    bootstrapped: bool,
    guard: bool,
) -> Seq<StepView> {
    seq![opt_step(bootstrapped)] + concat(s.interfaces.len(), untagged_at(s, saved)) + vlan_steps(s)
        + wireguard_steps(s) + route_steps(s) + qdisc_steps(s) + lan_steps(s, bootstrapped) + seq![
        StepView::Nft(lines_text(ruleset(s, guard))),
    ]
}

/// The names of the interfaces that are asked for the addresses they have.
pub fn wants_capture(s: &DesiredState, name: &str) -> (r: bool)
    ensures
        r == keeps_addresses(s@, name@),
{
    let exposed = policy::exposes_ui(s, name);
    let mut i: usize = 0;
    while i < s.interfaces.len()
        invariant
            exposed == s@.ui_exposure.contains(name@),
            i <= s.interfaces@.len(),
            forall|j: int|
                0 <= j < i ==> !((#[trigger] s@.interfaces[j]).name == name@ && s@.interfaces[j].vlan is None
                    && (s@.ui_exposure.contains(name@) || has_role(s@.interfaces[j], "lan"@))),
        decreases s.interfaces@.len() - i,
    {
        let iface = &s.interfaces[i];
        assert(s@.interfaces[i as int] == iface@);
        if same(iface.name.as_str(), name) && iface.vlan.is_none() && (exposed || in_role(iface, "lan")) {
            return true;
        }
        i = i + 1;
    }
    false
}

/// Addresses that were found, as the model has them.
pub open spec fn found_views(v: Seq<Option<Vec<String>>>) -> Seq<Option<Seq<Seq<char>>>> {
    Seq::new(
        v.len(),
        |i: int|
            match v[i] {
                Some(a) => Some(texts(a@)),
                None => None,
            },
    )
}

fn adopt(s: &mut DesiredState, found: &Vec<Option<Vec<String>>>) -> (saved: Vec<(String, Vec<String>)>)
    ensures
        final(s)@ == adopted(old(s)@, found_views(found@)),
        exposure_views(saved@) == saved_addresses(old(s)@, found_views(found@)),
{
    let ghost was = s@;
    let ghost fv = found_views(found@);
    let ghost f = saved_at(was, fv);
    let mut ifaces: Vec<Iface> = Vec::new();
    let mut saved: Vec<(String, Vec<String>)> = Vec::new();
    let mut i: usize = 0;
    assert(exposure_views(saved@) == Seq::<(Seq<char>, Seq<Seq<char>>)>::empty());
    while i < s.interfaces.len()
        invariant
            s@ == was,
            fv == found_views(found@),
            f == saved_at(was, fv),
            i <= s.interfaces@.len(),
            ifaces@.len() == i,
            forall|j: int| 0 <= j < i ==> (#[trigger] ifaces@[j])@ == adopted_iface(was, fv, j),
            exposure_views(saved@) == collect(i as nat, f),
        decreases s.interfaces@.len() - i,
    {
        let mut iface = s.interfaces[i].clone();
        assert(was.interfaces[i as int] == s.interfaces@[i as int]@);
        if wants_capture(s, iface.name.as_str()) && i < found.len() {
            assert(fv[i as int] == found_views(found@)[i as int]);
            match &found[i] {
                Some(a) => {
                    let ghost before = saved@;
                    if a.len() == 0 {
                        saved.push((iface.name.clone(), copy_texts(&iface.addresses)));
                    } else {
                        saved.push((iface.name.clone(), copy_texts(a)));
                        if iface.addresses.len() == 0 {
                            iface.addresses = copy_texts(a);
                        }
                    }
                    assert(exposure_views(saved@) == exposure_views(before).push(f(i as int)->0));
                },
                None => {},
            }
        }
        ifaces.push(iface);
        i = i + 1;
    }
    s.interfaces = ifaces;
    assert(iface_views(s.interfaces@) == adopted(was, fv).interfaces);
    saved
}

fn saved_of(saved: &Vec<(String, Vec<String>)>, name: &str) -> (r: Vec<String>)
    ensures
        texts(r@) == saved_for(exposure_views(saved@), name@),
{
    let ghost v = exposure_views(saved@);
    let ghost f = saved_as(v, name@);
    let mut i: usize = 0;
    while i < saved.len()
        invariant
            v == exposure_views(saved@),
            f == saved_as(v, name@),
            i <= saved@.len(),
            first_some(i as nat, f) is None,
        decreases saved@.len() - i,
    {
        assert(v[i as int] == (saved@[i as int].0@, texts(saved@[i as int].1@)));
        if same(saved[i].0.as_str(), name) {
            proof {
                lemma_first_some((i + 1) as nat, v.len(), f);
            }
            return copy_texts(&saved[i].1);
        }
        i = i + 1;
    }
    let r: Vec<String> = Vec::new();
    assert(texts(r@) == Seq::<Seq<char>>::empty());
    r
}

fn push_untagged(plan: &mut Vec<Step>, s: &DesiredState, saved: &Vec<(String, Vec<String>)>)
    ensures
        step_views(final(plan)@) == step_views(old(plan)@) + concat(
            s@.interfaces.len(),
            untagged_at(s@, exposure_views(saved@)),
        ),
{
    let ghost base = step_views(plan@);
    let ghost f = untagged_at(s@, exposure_views(saved@));
    let mut i: usize = 0;
    assert(base + concat(0, f) == base);
    while i < s.interfaces.len()
        invariant
            f == untagged_at(s@, exposure_views(saved@)),
            i <= s.interfaces@.len(),
            step_views(plan@) == base + concat(i as nat, f),
        decreases s.interfaces@.len() - i,
    {
        let iface = &s.interfaces[i];
        assert(s@.interfaces[i as int] == iface@);
        if iface.vlan.is_none() {
            let name = iface.name.as_str();
            let extra = saved_of(saved, name);
            add_step(plan, Step::RequireLink(name.to_owned()));
            add_step(plan, bring_up(name));
            push_addresses(plan, name, &extra);
            push_addresses(plan, name, &iface.addresses);
        }
        assert(step_views(plan@) == base + (concat(i as nat, f) + f(i as int)));
        i = i + 1;
    }
}

fn plan_apply(s: &DesiredState, saved: &Vec<(String, Vec<String>)>, bootstrapped: bool, guard: bool) -> (r: Vec<
    Step,
>)
    ensures
        step_views(r@) == apply_steps(s@, exposure_views(saved@), bootstrapped, guard),
{
    let mut plan: Vec<Step> = Vec::new();
    if bootstrapped {
        add_step(&mut plan, Step::DiscardOpt);
    } else {
        add_step(&mut plan, Step::SuspendOpt);
    }
    assert(step_views(plan@) == seq![opt_step(bootstrapped)]);
    push_untagged(&mut plan, s, saved);
    add_steps(&mut plan, program_vlans(s));
    add_steps(&mut plan, program_wg(s));
    add_steps(&mut plan, program_routes(s));
    add_steps(&mut plan, program_qdiscs(s));
    add_steps(&mut plan, program_lan_services(s, bootstrapped));
    let ghost before = step_views(plan@);
    add_step(&mut plan, Step::Nft(nft::nft_rules_with_recovery_guard(s, guard)));
    assert(step_views(plan@) == before + seq![StepView::Nft(lines_text(ruleset(s@, guard)))]);
    plan
}

/// The state that is applied in place of `s`.
pub open spec fn applied_state(s: DesiredView, found: Seq<Option<Seq<Seq<char>>>>) -> DesiredView {
    with_lan_address(adopted(s, found))
}

/// Makes the plan that applies a state, where it breaks no rule; the state
/// takes over the addresses that it lacks.
pub fn apply(s: &mut DesiredState, found: &Vec<Option<Vec<String>>>, bootstrapped: bool, guard: bool) -> (r:
    Result<Vec<Step>, String>)
    ensures
        match r {
            Ok(plan) => {
                &&& validate_error(old(s)@) is None
                &&& final(s)@ == applied_state(old(s)@, found_views(found@))
                &&& step_views(plan@) == apply_steps(
                    final(s)@,
                    saved_addresses(old(s)@, found_views(found@)),
                    bootstrapped,
                    guard,
                )
            },
            Err(e) => validate_error(old(s)@) == Some(e@) && final(s)@ == old(s)@,
        },
{
    match policy::validate(s) {
        Ok(_) => {},
        Err(e) => return Err(e),
    }
    let saved = adopt(s, found);
    lan::merge_lan_prefix_addr(s);
    Ok(plan_apply(s, &saved, bootstrapped, guard))
}

/// The firewall rules come after every other step, so that what they let
/// through is there.
pub proof fn law_firewall_comes_last(
    s: DesiredView,
    saved: Seq<(Seq<char>, Seq<Seq<char>>)>,
    bootstrapped: bool,
    guard: bool,
)
    ensures
        apply_steps(s, saved, bootstrapped, guard).last() == StepView::Nft(
            lines_text(ruleset(s, guard)),
        ),
{
}

/// Whether no step writes a file.
#[verifier::opaque]
pub open spec fn writes_nothing(v: Seq<StepView>) -> bool {
    forall|k: int| 0 <= k < v.len() ==> !(#[trigger] v[k] is Write)
}

proof fn lemma_writes_nothing(a: Seq<StepView>, b: Seq<StepView>)
    requires
        writes_nothing(a),
        writes_nothing(b),
    ensures
        writes_nothing(a + b),
{
    reveal(writes_nothing);
}

proof fn lemma_concat_writes_nothing(n: nat, f: spec_fn(int) -> Seq<StepView>)
    requires
        forall|i: int| 0 <= i < n ==> writes_nothing(#[trigger] f(i)),
    ensures
        writes_nothing(concat(n, f)),
    decreases n,
{
    if n > 0 {
        lemma_concat_writes_nothing((n - 1) as nat, f);
        lemma_writes_nothing(concat((n - 1) as nat, f), f(n - 1));
    } else {
        reveal(writes_nothing);
    }
}

proof fn lemma_untagged_write_nothing(s: DesiredView, saved: Seq<(Seq<char>, Seq<Seq<char>>)>)
    ensures
        writes_nothing(concat(s.interfaces.len(), untagged_at(s, saved))),
{
    let f = untagged_at(s, saved);
    assert forall|i: int| 0 <= i < s.interfaces.len() implies writes_nothing(#[trigger] f(i)) by {
        reveal(writes_nothing);
    }
    lemma_concat_writes_nothing(s.interfaces.len(), f);
}

proof fn lemma_vlans_write_nothing(s: DesiredView)
    ensures
        writes_nothing(vlan_steps(s)),
{
    let f = vlan_at(s);
    assert forall|i: int| 0 <= i < s.interfaces.len() implies writes_nothing(#[trigger] f(i)) by {
        reveal(writes_nothing);
    }
    lemma_concat_writes_nothing(s.interfaces.len(), f);
}

proof fn lemma_tunnels_write_nothing(s: DesiredView)
    ensures
        writes_nothing(wireguard_steps(s)),
{
    let f = wireguard_at(s);
    assert forall|i: int| 0 <= i < s.wireguard.len() implies writes_nothing(#[trigger] f(i)) by {
        reveal(writes_nothing);
    }
    lemma_concat_writes_nothing(s.wireguard.len(), f);
}

proof fn lemma_others_write_nothing(s: DesiredView, guard: bool)
    ensures
        writes_nothing(seq![opt_step(false)]),
        writes_nothing(route_steps(s)),
        writes_nothing(qdisc_steps(s)),
        writes_nothing(lan_steps(s, false)),
        writes_nothing(seq![StepView::Nft(lines_text(ruleset(s, guard)))]),
{
    reveal(writes_nothing);
}

/// No service is configured before the appliance has an owner.
#[verifier::spinoff_prover]
pub proof fn law_no_services_without_an_owner(
    s: DesiredView,
    saved: Seq<(Seq<char>, Seq<Seq<char>>)>,
    guard: bool,
)
    ensures
        writes_nothing(apply_steps(s, saved, false, guard)),
{
    let untagged = concat(s.interfaces.len(), untagged_at(s, saved));
    let rules = seq![StepView::Nft(lines_text(ruleset(s, guard)))];
    lemma_untagged_write_nothing(s, saved);
    lemma_vlans_write_nothing(s);
    lemma_tunnels_write_nothing(s);
    lemma_others_write_nothing(s, guard);
    let p0 = seq![opt_step(false)];
    let p1 = p0 + untagged;
    let p2 = p1 + vlan_steps(s);
    let p3 = p2 + wireguard_steps(s);
    let p4 = p3 + route_steps(s);
    let p5 = p4 + qdisc_steps(s);
    let p6 = p5 + lan_steps(s, false);
    lemma_writes_nothing(p0, untagged);
    lemma_writes_nothing(p1, vlan_steps(s));
    lemma_writes_nothing(p2, wireguard_steps(s));
    lemma_writes_nothing(p3, route_steps(s));
    lemma_writes_nothing(p4, qdisc_steps(s));
    lemma_writes_nothing(p5, lan_steps(s, false));
    lemma_writes_nothing(p6, rules);
}

/// Whether a step stands before place `k`.
pub open spec fn done_before(plan: Seq<StepView>, k: int, step: StepView) -> bool {
    exists|j: int| 0 <= j < k && j < plan.len() && #[trigger] plan[j] == step
}

/// Whether every interface and every tunnel of a state has all its configured
/// addresses before place `k`.
#[verifier::opaque]
pub open spec fn addressed_before(plan: Seq<StepView>, k: int, s: DesiredView) -> bool {
    &&& forall|i: int, a: int|
        0 <= i < s.interfaces.len() && 0 <= a < s.interfaces[i].addresses.len() ==> done_before(
            plan,
            k,
            StepView::AddAddress(s.interfaces[i].name, #[trigger] s.interfaces[i].addresses[a]),
        )
    &&& forall|i: int, a: int|
        0 <= i < s.wireguard.len() && 0 <= a < s.wireguard[i].addresses.len() ==> done_before(
            plan,
            k,
            StepView::AddAddress(s.wireguard[i].name, #[trigger] s.wireguard[i].addresses[a]),
        )
}

/// Whether a step is done before the last one, and behind every configured
/// address.
#[verifier::opaque]
pub open spec fn done_once_addressed(plan: Seq<StepView>, s: DesiredView, step: StepView) -> bool {
    exists|k: int| 0 <= k < plan.len() - 1 && #[trigger] plan[k] == step && addressed_before(plan, k, s)
}

/// The steps up to the routes.
#[verifier::opaque]
spec fn links_part(s: DesiredView, saved: Seq<(Seq<char>, Seq<Seq<char>>)>, bootstrapped: bool) -> Seq<StepView> {
    seq![opt_step(bootstrapped)] + concat(s.interfaces.len(), untagged_at(s, saved)) + vlan_steps(s)
        + wireguard_steps(s)
}

/// A plan begins with the links; routes and disciplines follow, and the rules
/// end it.
#[verifier::spinoff_prover]
proof fn lemma_plan_parts(
    s: DesiredView,
    saved: Seq<(Seq<char>, Seq<Seq<char>>)>,
    bootstrapped: bool,
    guard: bool,
)
    ensures
        ({
            let plan = apply_steps(s, saved, bootstrapped, guard);
            let p = links_part(s, saved, bootstrapped);
            &&& p.len() + s.routes.len() + s.qdiscs.len() < plan.len()
            &&& plan.take(p.len() as int) == p
            &&& forall|r: int|
                0 <= r < s.routes.len() ==> plan[p.len() + r] == StepView::Ip(
                    route_args(#[trigger] s.routes[r], "replace"@),
                )
            &&& forall|q: int|
                0 <= q < s.qdiscs.len() ==> plan[p.len() + s.routes.len() + q] == StepView::Tc(
                    qdisc_args(#[trigger] s.qdiscs[q]),
                )
        }),
{
    reveal(links_part);
    let plan = apply_steps(s, saved, bootstrapped, guard);
    let p = links_part(s, saved, bootstrapped);
    let r = p + route_steps(s);
    let q = r + qdisc_steps(s);
    assert(plan == q + lan_steps(s, bootstrapped) + seq![StepView::Nft(lines_text(ruleset(s, guard)))]);
    assert(plan.take(p.len() as int) =~= p);
    assert forall|x: int| 0 <= x < s.routes.len() implies plan[p.len() + x] == StepView::Ip(
        route_args(#[trigger] s.routes[x], "replace"@),
    ) by {
        assert(plan[p.len() + x] == route_steps(s)[x]);
    }
    assert forall|x: int| 0 <= x < s.qdiscs.len() implies plan[p.len() + s.routes.len() + x] == StepView::Tc(
        qdisc_args(#[trigger] s.qdiscs[x]),
    ) by {
        assert(plan[p.len() + s.routes.len() + x] == qdisc_steps(s)[x]);
    }
}

/// What stands in a part is done before whatever stands behind the part.
proof fn lemma_in_part(part: Seq<StepView>, plan: Seq<StepView>, k: int, step: StepView)
    requires
        part.len() <= plan.len(),
        plan.take(part.len() as int) == part,
        part.contains(step),
        k >= part.len(),
    ensures
        done_before(plan, k, step),
{
    let j = choose|j: int| 0 <= j < part.len() && part[j] == step;
    assert(plan.take(part.len() as int)[j] == plan[j]);
}

proof fn lemma_all_addressed(s: DesiredView, saved: Seq<(Seq<char>, Seq<Seq<char>>)>, bootstrapped: bool)
    ensures
        addresses_in(s, links_part(s, saved, bootstrapped)),
{
    reveal(links_part);
    reveal(addresses_in);
    let p = links_part(s, saved, bootstrapped);
    let p0 = seq![opt_step(bootstrapped)];
    let u = concat(s.interfaces.len(), untagged_at(s, saved));
    let v = vlan_steps(s);
    let w = wireguard_steps(s);
    assert forall|i: int, a: int|
        0 <= i < s.interfaces.len() && 0 <= a < s.interfaces[i].addresses.len() implies p.contains(
        StepView::AddAddress(s.interfaces[i].name, #[trigger] s.interfaces[i].addresses[a]),
    ) by {
        let step = StepView::AddAddress(s.interfaces[i].name, s.interfaces[i].addresses[a]);
        let own = address_steps(s.interfaces[i].name, s.interfaces[i].addresses);
        assert(own[a] == step);
        if s.interfaces[i].vlan is None {
            let f = untagged_at(s, saved);
            let extra = address_steps(s.interfaces[i].name, saved_for(saved, s.interfaces[i].name));
            assert(f(i)[2 + extra.len() + a] == own[a]);
            lemma_concat_has(s.interfaces.len(), f, i, step);
            let e = choose|e: int| 0 <= e < u.len() && u[e] == step;
            assert(p[1 + e] == step);
        } else {
            let f = vlan_at(s);
            assert(f(i)[2 + a] == own[a]);
            lemma_concat_has(s.interfaces.len(), f, i, step);
            let e = choose|e: int| 0 <= e < v.len() && v[e] == step;
            assert(p[(p0 + u).len() + e] == step);
        }
    }
    assert forall|i: int, a: int|
        0 <= i < s.wireguard.len() && 0 <= a < s.wireguard[i].addresses.len() implies p.contains(
        StepView::AddAddress(s.wireguard[i].name, #[trigger] s.wireguard[i].addresses[a]),
    ) by {
        let step = StepView::AddAddress(s.wireguard[i].name, s.wireguard[i].addresses[a]);
        let own = address_steps(s.wireguard[i].name, s.wireguard[i].addresses);
        let f = wireguard_at(s);
        assert(own[a] == step);
        assert(f(i)[3 + a] == own[a]);
        lemma_concat_has(s.wireguard.len(), f, i, step);
        let e = choose|e: int| 0 <= e < w.len() && w[e] == step;
        assert(p[(p0 + u + v).len() + e] == step);
    }
}

/// Every static route is put in place, by its own words: behind every
/// configured address, and before the firewall rules.
pub proof fn law_every_route_is_put_in_place(
    s: DesiredView,
    saved: Seq<(Seq<char>, Seq<Seq<char>>)>,
    bootstrapped: bool,
    guard: bool,
    r: int,
)
    requires
        0 <= r < s.routes.len(),
    ensures
        ({
            let plan = apply_steps(s, saved, bootstrapped, guard);
            let route = s.routes[r];
            let words = seq![
                if route.to.contains(':') {
                    "-6"@
                } else {
                    "-4"@
                },
                "route"@,
                "replace"@,
                route.to,
                "via"@,
                route.via,
            ];
            let step = StepView::Ip(
                match route.dev {
                    Some(d) => words.push("dev"@).push(d),
                    None => words,
                },
            );
            done_once_addressed(plan, s, step)
        }),
{
    lemma_route_done(s, saved, bootstrapped, guard, r);
    lemma_route_words(s.routes[r], "replace"@);
}

/// The words for a route.
proof fn lemma_route_words(route: RouteView, verb: Seq<char>)
    ensures
        ({
            let words = seq![
                if route.to.contains(':') {
                    "-6"@
                } else {
                    "-4"@
                },
                "route"@,
                verb,
                route.to,
                "via"@,
                route.via,
            ];
            route_args(route, verb) == match route.dev {
                Some(d) => words.push("dev"@).push(d),
                None => words,
            }
        }),
{
    let words = seq![
        if route.to.contains(':') {
            "-6"@
        } else {
            "-4"@
        },
        "route"@,
        verb,
        route.to,
        "via"@,
        route.via,
    ];
    assert(route_args(route, verb) =~= match route.dev {
        Some(d) => words.push("dev"@).push(d),
        None => words,
    });
}

#[verifier::spinoff_prover]
proof fn lemma_route_done(
    s: DesiredView,
    saved: Seq<(Seq<char>, Seq<Seq<char>>)>,
    bootstrapped: bool,
    guard: bool,
    r: int,
)
    requires
        0 <= r < s.routes.len(),
    ensures
        done_once_addressed(
            apply_steps(s, saved, bootstrapped, guard),
            s,
            StepView::Ip(route_args(s.routes[r], "replace"@)),
        ),
{
    let plan = apply_steps(s, saved, bootstrapped, guard);
    let p = links_part(s, saved, bootstrapped);
    lemma_plan_parts(s, saved, bootstrapped, guard);
    lemma_all_addressed(s, saved, bootstrapped);
    lemma_once_addressed(s, p, plan, p.len() + r);
}

proof fn lemma_once_addressed(s: DesiredView, p: Seq<StepView>, plan: Seq<StepView>, k: int)
    requires
        p.len() <= plan.len(),
        plan.take(p.len() as int) == p,
        p.len() <= k < plan.len() - 1,
        addresses_in(s, p),
    ensures
        done_once_addressed(plan, s, plan[k]),
{
    reveal(done_once_addressed);
    lemma_addressed(s, p, plan, k);
}

/// Whether every configured address of a state is given in these steps.
#[verifier::opaque]
spec fn addresses_in(s: DesiredView, p: Seq<StepView>) -> bool {
    &&& forall|i: int, a: int|
        0 <= i < s.interfaces.len() && 0 <= a < s.interfaces[i].addresses.len() ==> p.contains(
            StepView::AddAddress(s.interfaces[i].name, #[trigger] s.interfaces[i].addresses[a]),
        )
    &&& forall|i: int, a: int|
        0 <= i < s.wireguard.len() && 0 <= a < s.wireguard[i].addresses.len() ==> p.contains(
            StepView::AddAddress(s.wireguard[i].name, #[trigger] s.wireguard[i].addresses[a]),
        )
}

proof fn lemma_addressed(s: DesiredView, p: Seq<StepView>, plan: Seq<StepView>, k: int)
    requires
        p.len() <= plan.len(),
        plan.take(p.len() as int) == p,
        k >= p.len(),
        addresses_in(s, p),
    ensures
        addressed_before(plan, k, s),
{
    reveal(addresses_in);
    reveal(addressed_before);
    assert forall|i: int, a: int|
        0 <= i < s.interfaces.len() && 0 <= a < s.interfaces[i].addresses.len() implies done_before(
        plan,
        k,
        StepView::AddAddress(s.interfaces[i].name, #[trigger] s.interfaces[i].addresses[a]),
    ) by {
        lemma_in_part(p, plan, k, StepView::AddAddress(s.interfaces[i].name, s.interfaces[i].addresses[a]));
    }
    assert forall|i: int, a: int|
        0 <= i < s.wireguard.len() && 0 <= a < s.wireguard[i].addresses.len() implies done_before(
        plan,
        k,
        StepView::AddAddress(s.wireguard[i].name, #[trigger] s.wireguard[i].addresses[a]),
    ) by {
        lemma_in_part(p, plan, k, StepView::AddAddress(s.wireguard[i].name, s.wireguard[i].addresses[a]));
    }
}

/// Every queueing discipline is put in place, behind every configured address
/// and before the firewall rules.
pub proof fn law_every_qdisc_is_put_in_place(
    s: DesiredView,
    saved: Seq<(Seq<char>, Seq<Seq<char>>)>,
    bootstrapped: bool,
    guard: bool,
    q: int,
)
    requires
        0 <= q < s.qdiscs.len(),
    ensures
        ({
            let plan = apply_steps(s, saved, bootstrapped, guard);
            done_once_addressed(
                plan,
                s,
                StepView::Tc(seq!["qdisc"@, "replace"@, "dev"@, s.qdiscs[q].dev, "root"@, s.qdiscs[q].kind]),
            )
        }),
{
    lemma_qdisc_done(s, saved, bootstrapped, guard, q);
    lemma_qdisc_words(s.qdiscs[q]);
}

/// The words for a queueing discipline.
proof fn lemma_qdisc_words(q: QdiscView)
    ensures
        qdisc_args(q) == seq!["qdisc"@, "replace"@, "dev"@, q.dev, "root"@, q.kind],
{
}

#[verifier::spinoff_prover]
proof fn lemma_qdisc_done(
    s: DesiredView,
    saved: Seq<(Seq<char>, Seq<Seq<char>>)>,
    bootstrapped: bool,
    guard: bool,
    q: int,
)
    requires
        0 <= q < s.qdiscs.len(),
    ensures
        done_once_addressed(
            apply_steps(s, saved, bootstrapped, guard),
            s,
            StepView::Tc(qdisc_args(s.qdiscs[q])),
        ),
{
    let plan = apply_steps(s, saved, bootstrapped, guard);
    let p = links_part(s, saved, bootstrapped);
    lemma_plan_parts(s, saved, bootstrapped, guard);
    lemma_all_addressed(s, saved, bootstrapped);
    lemma_once_addressed(s, p, plan, p.len() + s.routes.len() + q);
}

/// Whether one step is done, then another, and both before place `k`.
#[verifier::opaque]
pub open spec fn done_in_order(plan: Seq<StepView>, k: int, first: StepView, second: StepView) -> bool {
    exists|i: int, j: int|
        0 <= i < j < k && j < plan.len() && #[trigger] plan[i] == first && #[trigger] plan[j] == second
}

/// What is done in some order in a part is done so in a plan that begins with
/// it.
proof fn lemma_part_in_order(part: Seq<StepView>, plan: Seq<StepView>, k: int, first: StepView, second: StepView)
    requires
        part.len() <= plan.len(),
        plan.take(part.len() as int) == part,
        k >= part.len(),
        done_in_order(part, part.len() as int, first, second),
    ensures
        done_in_order(plan, k, first, second),
{
    reveal(done_in_order);
    let (i, j) = choose|i: int, j: int|
        0 <= i < j < part.len() && #[trigger] part[i] == first && #[trigger] part[j] == second;
    assert(plan.take(part.len() as int)[i] == plan[i]);
    assert(plan.take(part.len() as int)[j] == plan[j]);
}

/// What stands in a piece in some order stands so among pieces one behind the
/// other.
proof fn lemma_piece_in_order(
    head: Seq<StepView>,
    n: nat,
    f: spec_fn(int) -> Seq<StepView>,
    tail: Seq<StepView>,
    i: int,
    a: int,
    b: int,
)
    requires
        0 <= i < n,
        0 <= a < b < f(i).len(),
    ensures
        ({
            let all = head + concat(n, f) + tail;
            done_in_order(all, all.len() as int, f(i)[a], f(i)[b])
        }),
{
    reveal(done_in_order);
    lemma_concat_keeps_order(n, f, i, a, b);
    let c = concat(n, f);
    let all = head + c + tail;
    let (x, y) = choose|x: int, y: int|
        0 <= x < y < c.len() && #[trigger] c[x] == f(i)[a] && #[trigger] c[y] == f(i)[b];
    assert(all[head.len() + x] == f(i)[a] && all[head.len() + y] == f(i)[b]);
}

proof fn lemma_tunnel_in_order(
    s: DesiredView,
    saved: Seq<(Seq<char>, Seq<Seq<char>>)>,
    bootstrapped: bool,
    w: int,
    a: int,
    b: int,
)
    requires
        0 <= w < s.wireguard.len(),
        0 <= a < b < 3,
    ensures
        ({
            let p = links_part(s, saved, bootstrapped);
            done_in_order(p, p.len() as int, wireguard_at(s)(w)[a], wireguard_at(s)(w)[b])
        }),
{
    reveal(links_part);
    let head = seq![opt_step(bootstrapped)] + concat(s.interfaces.len(), untagged_at(s, saved)) + vlan_steps(s);
    lemma_piece_in_order(head, s.wireguard.len(), wireguard_at(s), Seq::empty(), w, a, b);
    assert(head + wireguard_steps(s) + Seq::<StepView>::empty() =~= links_part(s, saved, bootstrapped));
}

proof fn lemma_untagged_in_order(
    s: DesiredView,
    saved: Seq<(Seq<char>, Seq<Seq<char>>)>,
    bootstrapped: bool,
    i: int,
)
    requires
        0 <= i < s.interfaces.len(),
        s.interfaces[i].vlan is None,
    ensures
        ({
            let p = links_part(s, saved, bootstrapped);
            done_in_order(
                p,
                p.len() as int,
                StepView::RequireLink(s.interfaces[i].name),
                link_up(s.interfaces[i].name),
            )
        }),
{
    reveal(links_part);
    let head = seq![opt_step(bootstrapped)];
    let f = untagged_at(s, saved);
    let tail = vlan_steps(s) + wireguard_steps(s);
    lemma_piece_in_order(head, s.interfaces.len(), f, tail, i, 0, 1);
    assert(head + concat(s.interfaces.len(), f) + tail =~= links_part(s, saved, bootstrapped));
}

/// How a tagged interface is made.
spec fn vlan_making(iface: IfaceView) -> StepView {
    StepView::IpUnlessLink(
        iface.name,
        seq![
            "link"@,
            "add"@,
            "link"@,
            policy::link_of(iface).0,
            "name"@,
            iface.name,
            "type"@,
            "vlan"@,
            "id"@,
            decimal(iface.vlan->0 as nat),
        ],
    )
}

proof fn lemma_tagged_in_order(s: DesiredView, saved: Seq<(Seq<char>, Seq<Seq<char>>)>, bootstrapped: bool, i: int)
    requires
        0 <= i < s.interfaces.len(),
        s.interfaces[i].vlan is Some,
    ensures
        ({
            let p = links_part(s, saved, bootstrapped);
            done_in_order(p, p.len() as int, vlan_making(s.interfaces[i]), link_up(s.interfaces[i].name))
        }),
{
    reveal(links_part);
    let head = seq![opt_step(bootstrapped)] + concat(s.interfaces.len(), untagged_at(s, saved));
    lemma_piece_in_order(head, s.interfaces.len(), vlan_at(s), wireguard_steps(s), i, 0, 1);
    assert(vlan_at(s)(i)[0] == vlan_making(s.interfaces[i]));
    assert(head + vlan_steps(s) + wireguard_steps(s) =~= links_part(s, saved, bootstrapped));
}

/// Every tunnel is made where it is not there, then given its key and port,
/// then brought up, all before the firewall rules.
#[verifier::spinoff_prover]
pub proof fn law_every_tunnel_is_set_up(
    s: DesiredView,
    saved: Seq<(Seq<char>, Seq<Seq<char>>)>,
    bootstrapped: bool,
    guard: bool,
    w: int,
)
    requires
        0 <= w < s.wireguard.len(),
    ensures
        ({
            let plan = apply_steps(s, saved, bootstrapped, guard);
            let tunnel = s.wireguard[w];
            let last = plan.len() - 1;
            let make = StepView::IpUnlessLink(
                tunnel.name,
                seq!["link"@, "add"@, tunnel.name, "type"@, "wireguard"@],
            );
            let words = seq!["set"@, tunnel.name, "private-key"@, "/dev/stdin"@];
            let key = StepView::Wg(
                match tunnel.listen_port {
                    Some(p) => words.push("listen-port"@).push(decimal(p as nat)),
                    None => words,
                },
                tunnel.private_key,
            );
            let up = StepView::Ip(seq!["link"@, "set"@, tunnel.name, "up"@]);
            &&& done_in_order(plan, last, make, key)
            &&& done_in_order(plan, last, key, up)
            &&& addressed_before(plan, last, s)
        }),
{
    let plan = apply_steps(s, saved, bootstrapped, guard);
    let p = links_part(s, saved, bootstrapped);
    let tunnel = s.wireguard[w];
    lemma_plan_parts(s, saved, bootstrapped, guard);
    lemma_all_addressed(s, saved, bootstrapped);
    lemma_addressed(s, p, plan, plan.len() - 1);
    let words = seq!["set"@, tunnel.name, "private-key"@, "/dev/stdin"@];
    assert(wg_args(tunnel) =~= match tunnel.listen_port {
        Some(p) => words.push("listen-port"@).push(decimal(p as nat)),
        None => words,
    });
    let piece = wireguard_at(s)(w);
    lemma_tunnel_in_order(s, saved, bootstrapped, w, 0, 1);
    lemma_tunnel_in_order(s, saved, bootstrapped, w, 1, 2);
    lemma_part_in_order(p, plan, plan.len() - 1, piece[0], piece[1]);
    lemma_part_in_order(p, plan, plan.len() - 1, piece[1], piece[2]);
}

/// Every untagged interface has to be there and is then brought up, and every
/// tagged one is made on its parent and then brought up, before the firewall
/// rules; all have their addresses by then.
#[verifier::spinoff_prover]
pub proof fn law_every_interface_is_set_up(
    s: DesiredView,
    saved: Seq<(Seq<char>, Seq<Seq<char>>)>,
    bootstrapped: bool,
    guard: bool,
    i: int,
)
    requires
        0 <= i < s.interfaces.len(),
    ensures
        ({
            let plan = apply_steps(s, saved, bootstrapped, guard);
            let iface = s.interfaces[i];
            let last = plan.len() - 1;
            let up = StepView::Ip(seq!["link"@, "set"@, iface.name, "up"@]);
            &&& iface.vlan is None ==> done_in_order(plan, last, StepView::RequireLink(iface.name), up)
            &&& iface.vlan is Some && iface.parent is Some ==> done_in_order(
                plan,
                last,
                StepView::IpUnlessLink(
                    iface.name,
                    seq![
                        "link"@,
                        "add"@,
                        "link"@,
                        iface.parent->0,
                        "name"@,
                        iface.name,
                        "type"@,
                        "vlan"@,
                        "id"@,
                        decimal(iface.vlan->0 as nat),
                    ],
                ),
                up,
            )
            &&& iface.vlan is Some ==> done_in_order(
                plan,
                last,
                StepView::IpUnlessLink(
                    iface.name,
                    seq![
                        "link"@,
                        "add"@,
                        "link"@,
                        policy::link_of(iface).0,
                        "name"@,
                        iface.name,
                        "type"@,
                        "vlan"@,
                        "id"@,
                        decimal(iface.vlan->0 as nat),
                    ],
                ),
                up,
            )
            &&& addressed_before(plan, last, s)
        }),
{
    let plan = apply_steps(s, saved, bootstrapped, guard);
    let p = links_part(s, saved, bootstrapped);
    lemma_plan_parts(s, saved, bootstrapped, guard);
    lemma_all_addressed(s, saved, bootstrapped);
    lemma_addressed(s, p, plan, plan.len() - 1);
    let name = s.interfaces[i].name;
    if s.interfaces[i].vlan is None {
        lemma_untagged_in_order(s, saved, bootstrapped, i);
        lemma_part_in_order(p, plan, plan.len() - 1, StepView::RequireLink(name), link_up(name));
    } else {
        lemma_tagged_in_order(s, saved, bootstrapped, i);
        lemma_part_in_order(p, plan, plan.len() - 1, vlan_making(s.interfaces[i]), link_up(name));
    }
}

/// Every route that only the earlier state has is taken away, by its own
/// words.
pub proof fn law_stale_routes_are_removed(previous: DesiredView, proposed: DesiredView, i: int)
    requires
        0 <= i < previous.routes.len(),
        forall|j: int| 0 <= j < proposed.routes.len() ==> (#[trigger] proposed.routes[j]).to != previous.routes[i].to,
    ensures
        ({
            let route = previous.routes[i];
            let words = seq![
                if route.to.contains(':') {
                    "-6"@
                } else {
                    "-4"@
                },
                "route"@,
                "del"@,
                route.to,
                "via"@,
                route.via,
            ];
            stale_steps(previous, proposed).contains(
                StepView::RemoveRoute(
                    match route.dev {
                        Some(d) => words.push("dev"@).push(d),
                        None => words,
                    },
                ),
            )
        }),
{
    lemma_route_words(previous.routes[i], "del"@);
    lemma_collects(previous.routes.len(), stale_at(previous, proposed), i);
}

/// What is applied is the state itself: only addresses are added to its
/// interfaces, and none is taken away.
pub proof fn law_applied_state_is_the_state(s: DesiredView, found: Seq<Option<Seq<Seq<char>>>>)
    ensures
        ({
            let t = applied_state(s, found);
            &&& t.routes == s.routes && t.wireguard == s.wireguard && t.qdiscs == s.qdiscs
            &&& t.nft_extra == s.nft_extra && t.ui_exposure == s.ui_exposure && t.revision == s.revision
            &&& t.hostname == s.hostname && t.lan_prefix == s.lan_prefix && t.dhcp_pool == s.dhcp_pool
            &&& t.wan_pd == s.wan_pd && t.apply_confirmation == s.apply_confirmation
            &&& t.interfaces.len() == s.interfaces.len()
            &&& forall|i: int|
                0 <= i < s.interfaces.len() ==> {
                    let a = #[trigger] t.interfaces[i];
                    let b = s.interfaces[i];
                    &&& a.name == b.name && a.placement == b.placement && a.role == b.role
                    &&& a.vlan == b.vlan && a.parent == b.parent && a.dhcp == b.dhcp
                    &&& b.addresses.len() <= a.addresses.len()
                    &&& a.addresses.take(b.addresses.len() as int) == b.addresses
                }
        }),
{
    let m = adopted(s, found);
    let t = applied_state(s, found);
    policy::lemma_found_iface(m.interfaces, policy::in_lan());
    assert(t.interfaces.len() == s.interfaces.len());
    assert forall|i: int| 0 <= i < s.interfaces.len() implies {
        let a = #[trigger] t.interfaces[i];
        let b = s.interfaces[i];
        &&& a.name == b.name && a.placement == b.placement && a.role == b.role
        &&& a.vlan == b.vlan && a.parent == b.parent && a.dhcp == b.dhcp
        &&& b.addresses.len() <= a.addresses.len()
        &&& a.addresses.take(b.addresses.len() as int) == b.addresses
    } by {
        let b = s.interfaces[i];
        let c = m.interfaces[i];
        assert(c == adopted_iface(s, found, i));
        assert(c.addresses.take(b.addresses.len() as int) =~= b.addresses);
        assert(t.interfaces[i].addresses.take(c.addresses.len() as int) =~= c.addresses);
        assert(t.interfaces[i].addresses.take(b.addresses.len() as int) =~= b.addresses);
    }
}

/// A route that both states have is left alone.
pub proof fn law_kept_routes_are_not_removed(previous: DesiredView, proposed: DesiredView, k: int)
    requires
        0 <= k < stale_steps(previous, proposed).len(),
    ensures
        exists|i: int|
            0 <= i < previous.routes.len() && stale_steps(previous, proposed)[k] == StepView::RemoveRoute(
                route_args(#[trigger] previous.routes[i], "del"@),
            ) && !has_route_to(proposed, previous.routes[i].to),
{
    let f = stale_at(previous, proposed);
    lemma_collected(previous.routes.len(), f, k);
    let i = choose|i: int|
        0 <= i < previous.routes.len() && #[trigger] f(i) == Some(
            collect(previous.routes.len(), f)[k],
        );
    assert(has_route_to(proposed, previous.routes[i].to) ==> f(i) is None);
}

// ---------------------------------------------------------------------------
// The LAN
// ---------------------------------------------------------------------------

/// The LAN interface gets the address that its prefix gives it, and the one that
/// a delegated prefix gives it.
pub proof fn law_lan_is_addressed(s: DesiredView, publish: bool, k: int, prefix: Seq<char>, host: Seq<char>)
    requires
        lan_place(s) == Some(k),
        s.lan_prefix == Some(prefix) || (s.lan_prefix is None && s.dhcp_pool is Some && policy::pool_prefix(
            s.dhcp_pool->0,
        ) == Some(prefix)),
        first_host(prefix) == Some(host),
    ensures
        lan_steps(s, publish).contains(
            StepView::AddAddress(s.interfaces[k].name, host + "/"@ + crate::lan::prefix_length(prefix)),
        ),
        s.wan_pd is Some && delegated_subnet(s.wan_pd->0) is Some ==> lan_steps(s, publish).contains(
            StepView::AddAddress(s.interfaces[k].name, delegated_texts(delegated_subnet(s.wan_pd->0)->0).0),
        ),
{
    let v = lan_steps(s, publish);
    assert(v.contains(v[0]));
    if s.wan_pd is Some && delegated_subnet(s.wan_pd->0) is Some {
        assert(v[1] == StepView::AddAddress(
            s.interfaces[k].name,
            delegated_texts(delegated_subnet(s.wan_pd->0)->0).0,
        ));
    }
}

/// Once there is an owner, the services of a LAN with a pool are configured for
/// it: leases out of the pool, IPv6 just where a prefix is delegated, and the
/// resolver. Without a pool or a LAN their configurations are removed.
pub proof fn law_lan_services_are_configured(s: DesiredView, k: int, prefix: Seq<char>, host: Seq<char>)
    requires
        lan_place(s) == Some(k),
        s.lan_prefix == Some(prefix) || (s.lan_prefix is None && s.dhcp_pool is Some && policy::pool_prefix(
            s.dhcp_pool->0,
        ) == Some(prefix)),
        first_host(prefix) == Some(host),
    ensures
        ({
            let v = lan_steps(s, true);
            let dev = s.interfaces[k].name;
            &&& s.dhcp_pool matches Some(pool) ==> {
                &&& v.contains(
                    StepView::Write(
                        "/var/lib/fwos/kea/kea-dhcp4.conf"@,
                        "kea-dhcp4"@,
                        lines_text(dhcp4_lines(dev, prefix, pool_bounds(pool).0, pool_bounds(pool).1, host)),
                    ),
                )
                &&& v.contains(
                    StepView::Write(
                        "/var/lib/fwos/unbound/unbound.conf"@,
                        "unbound"@,
                        lines_text(resolver_lines(host, prefix)),
                    ),
                )
                &&& s.wan_pd is Some && delegated_subnet(s.wan_pd->0) is Some ==> {
                    let t = delegated_texts(delegated_subnet(s.wan_pd->0)->0);
                    v.contains(
                        StepView::Write(
                            "/var/lib/fwos/kea/kea-dhcp6.conf"@,
                            "kea-dhcp6"@,
                            lines_text(dhcp6_lines(dev, t.1, t.2, t.3)),
                        ),
                    )
                }
                &&& s.wan_pd is None || delegated_subnet(s.wan_pd->0) is None ==> v.contains(
                    StepView::Remove("/var/lib/fwos/kea/kea-dhcp6.conf"@),
                )
            }
            &&& s.dhcp_pool is None ==> removes_services(v)
        }),
{
    let v = lan_steps(s, true);
    let dev = s.interfaces[k].name;
    let w = service_steps(dev, prefix, host, s.dhcp_pool, s.wan_pd);
    let n = 1 + delegated_step(dev, s.wan_pd).len() as int;
    assert forall|i: int| 0 <= i < w.len() implies v.contains(#[trigger] w[i]) by {
        assert(v[n + i] == w[i]);
    }
    if s.dhcp_pool is Some {
        assert(v.contains(w[2]) && v.contains(w[3]) && v.contains(w[4]));
    } else {
        assert(v.contains(w[0]) && v.contains(w[1]) && v.contains(w[2]));
    }
}

/// Whether these steps remove the configuration of every service.
pub open spec fn removes_services(v: Seq<StepView>) -> bool {
    &&& v.contains(StepView::Remove("/var/lib/fwos/kea/kea-dhcp4.conf"@))
    &&& v.contains(StepView::Remove("/var/lib/fwos/kea/kea-dhcp6.conf"@))
    &&& v.contains(StepView::Remove("/var/lib/fwos/unbound/unbound.conf"@))
}

/// Without a LAN, or a prefix for it, there are no services.
pub proof fn law_no_services_without_a_lan(s: DesiredView)
    requires
        lan_place(s) is None || (s.lan_prefix is None && s.dhcp_pool is None),
    ensures
        removes_services(lan_steps(s, true)),
{
    let v = lan_steps(s, true);
    assert(v.contains(v[0]) && v.contains(v[1]) && v.contains(v[2]));
}

/// The steps of the LAN are among those of a plan, behind every configured
/// address and before the firewall rules.
#[verifier::spinoff_prover]
pub proof fn law_lan_is_part_of_the_plan(
    s: DesiredView,
    saved: Seq<(Seq<char>, Seq<Seq<char>>)>,
    bootstrapped: bool,
    guard: bool,
    i: int,
)
    requires
        0 <= i < lan_steps(s, bootstrapped).len(),
    ensures
        done_once_addressed(apply_steps(s, saved, bootstrapped, guard), s, lan_steps(s, bootstrapped)[i]),
{
    let plan = apply_steps(s, saved, bootstrapped, guard);
    let p = links_part(s, saved, bootstrapped);
    lemma_plan_parts(s, saved, bootstrapped, guard);
    lemma_all_addressed(s, saved, bootstrapped);
    lemma_lan_part(s, saved, bootstrapped, guard, i);
    lemma_once_addressed(s, p, plan, p.len() + s.routes.len() + s.qdiscs.len() + i);
}

#[verifier::spinoff_prover]
proof fn lemma_lan_part(
    s: DesiredView,
    saved: Seq<(Seq<char>, Seq<Seq<char>>)>,
    bootstrapped: bool,
    guard: bool,
    i: int,
)
    requires
        0 <= i < lan_steps(s, bootstrapped).len(),
    ensures
        ({
            let plan = apply_steps(s, saved, bootstrapped, guard);
            let n = links_part(s, saved, bootstrapped).len() + s.routes.len() + s.qdiscs.len();
            &&& n + i < plan.len() - 1
            &&& plan[n + i] == lan_steps(s, bootstrapped)[i]
        }),
{
    reveal(links_part);
    let plan = apply_steps(s, saved, bootstrapped, guard);
    let q = links_part(s, saved, bootstrapped) + route_steps(s) + qdisc_steps(s);
    let lan = lan_steps(s, bootstrapped);
    assert(plan == q + lan + seq![StepView::Nft(lines_text(ruleset(s, guard)))]);
    assert(plan[q.len() + i] == lan[i]);
}

/// A plan begins with the first-boot choice, which is forgotten once there is an
/// owner, and suspended before.
pub proof fn law_first_boot_choice_ends_first(
    s: DesiredView,
    saved: Seq<(Seq<char>, Seq<Seq<char>>)>,
    guard: bool,
)
    ensures
        apply_steps(s, saved, true, guard)[0] == StepView::DiscardOpt,
        apply_steps(s, saved, false, guard)[0] == StepView::SuspendOpt,
{
}

/// An untagged interface that exposes the web interface or is a LAN keeps the
/// addresses that it was found with: they are configured where the state
/// configures none, and put back in any case.
pub proof fn law_found_addresses_are_kept(
    s: DesiredView,
    found: Seq<Option<Seq<Seq<char>>>>,
    i: int,
    a: Seq<Seq<char>>,
)
    requires
        0 <= i < s.interfaces.len(),
        i < found.len(),
        s.interfaces[i].vlan is None,
        s.ui_exposure.contains(s.interfaces[i].name) || s.interfaces[i].role == Some("lan"@),
        found[i] == Some(a),
        a.len() > 0,
    ensures
        s.interfaces[i].addresses.len() == 0 ==> adopted(s, found).interfaces[i].addresses == a,
        s.interfaces[i].addresses.len() > 0 ==> adopted(s, found).interfaces[i] == s.interfaces[i],
        saved_addresses(s, found).contains((s.interfaces[i].name, a)),
{
    assert(keeps_addresses(s, s.interfaces[i].name));
    lemma_collects(s.interfaces.len(), saved_at(s, found), i);
}

/// What was saved first for an untagged interface is put back on it.
#[verifier::spinoff_prover]
pub proof fn law_saved_addresses_are_put_back(
    s: DesiredView,
    saved: Seq<(Seq<char>, Seq<Seq<char>>)>,
    bootstrapped: bool,
    guard: bool,
    i: int,
    e: int,
    a: int,
)
    requires
        0 <= i < s.interfaces.len(),
        s.interfaces[i].vlan is None,
        0 <= e < saved.len(),
        saved[e].0 == s.interfaces[i].name,
        forall|j: int| 0 <= j < e ==> (#[trigger] saved[j]).0 != s.interfaces[i].name,
        0 <= a < saved[e].1.len(),
    ensures
        ({
            let plan = apply_steps(s, saved, bootstrapped, guard);
            done_before(plan, plan.len() - 1, StepView::AddAddress(s.interfaces[i].name, saved[e].1[a]))
        }),
{
    let plan = apply_steps(s, saved, bootstrapped, guard);
    let p = links_part(s, saved, bootstrapped);
    lemma_plan_parts(s, saved, bootstrapped, guard);
    lemma_saved_part(s, saved, bootstrapped, i, e, a);
    lemma_in_part(p, plan, plan.len() - 1, StepView::AddAddress(s.interfaces[i].name, saved[e].1[a]));
}

proof fn lemma_saved_part(
    s: DesiredView,
    saved: Seq<(Seq<char>, Seq<Seq<char>>)>,
    bootstrapped: bool,
    i: int,
    e: int,
    a: int,
)
    requires
        0 <= i < s.interfaces.len(),
        s.interfaces[i].vlan is None,
        0 <= e < saved.len(),
        saved[e].0 == s.interfaces[i].name,
        forall|j: int| 0 <= j < e ==> (#[trigger] saved[j]).0 != s.interfaces[i].name,
        0 <= a < saved[e].1.len(),
    ensures
        links_part(s, saved, bootstrapped).contains(StepView::AddAddress(s.interfaces[i].name, saved[e].1[a])),
{
    reveal(links_part);
    let name = s.interfaces[i].name;
    let step = StepView::AddAddress(name, saved[e].1[a]);
    let g = saved_as(saved, name);
    assert forall|j: int| 0 <= j < e implies #[trigger] g(j) is None by {
        assert(saved[j].0 != name);
    }
    text::lemma_first_some_is(saved.len(), g, e);
    let f = untagged_at(s, saved);
    let extra = address_steps(name, saved_for(saved, name));
    assert(extra[a] == step);
    let piece = f(i);
    assert(piece[2 + a] == extra[a]);
    lemma_concat_has(s.interfaces.len(), f, i, step);
    let u = concat(s.interfaces.len(), f);
    let x = choose|x: int| 0 <= x < u.len() && u[x] == step;
    let p = links_part(s, saved, bootstrapped);
    assert(p[1 + x] == step);
}

} // verus!
