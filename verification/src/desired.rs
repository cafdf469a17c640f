//! The complete Desired state: what the appliance's network is meant to be.

use crate::text::{copy_opt, copy_texts, text_opt, texts};
use vstd::prelude::*;

verus! {

/// The complete Desired state.
#[derive(Debug)]
pub struct DesiredState {
    pub revision: u64,
    pub interfaces: Vec<Iface>,
    pub wireguard: Vec<Wg>,
    pub routes: Vec<StaticRoute>,
    pub nft_extra: Vec<String>,
    pub qdiscs: Vec<Qdisc>,
    pub hostname: Option<String>,
    pub lan_prefix: Option<String>,
    pub dhcp_pool: Option<String>,
    pub wan_pd: Option<String>,
    pub ui_exposure: Vec<String>,
    /// Whether a replacement of this state has to be confirmed by an
    /// administrator before it is accepted.
    pub apply_confirmation: bool,
}

/// One interface and what it is for.
#[derive(Debug)]
pub struct Iface {
    pub name: String,
    pub placement: String,
    pub role: Option<String>,
    pub addresses: Vec<String>,
    pub vlan: Option<u16>,
    pub parent: Option<String>,
    pub dhcp: bool,
}

/// One WireGuard tunnel.
#[derive(Debug)]
pub struct Wg {
    pub name: String,
    pub private_key: String,
    pub listen_port: Option<u16>,
    pub addresses: Vec<String>,
}

/// One static route.
#[derive(Debug, PartialEq, Eq)]
pub struct StaticRoute {
    pub to: String,
    pub via: String,
    pub dev: Option<String>,
}

/// One queueing discipline at the root of a device.
#[derive(Debug)]
pub struct Qdisc {
    pub dev: String,
    pub kind: String,
}

// ---------------------------------------------------------------------------
// Models
// ---------------------------------------------------------------------------

#[verifier::ext_equal]
pub struct DesiredView {
    pub revision: u64,
    pub interfaces: Seq<IfaceView>,
    pub wireguard: Seq<WgView>,
    pub routes: Seq<RouteView>,
    pub nft_extra: Seq<Seq<char>>,
    pub qdiscs: Seq<QdiscView>,
    pub hostname: Option<Seq<char>>,
    pub lan_prefix: Option<Seq<char>>,
    pub dhcp_pool: Option<Seq<char>>,
    pub wan_pd: Option<Seq<char>>,
    pub ui_exposure: Seq<Seq<char>>,
    pub apply_confirmation: bool,
}

#[verifier::ext_equal]
pub struct IfaceView {
    pub name: Seq<char>,
    pub placement: Seq<char>,
    pub role: Option<Seq<char>>,
    pub addresses: Seq<Seq<char>>,
    pub vlan: Option<u16>,
    pub parent: Option<Seq<char>>,
    pub dhcp: bool,
}

#[verifier::ext_equal]
pub struct WgView {
    pub name: Seq<char>,
    pub private_key: Seq<char>,
    pub listen_port: Option<u16>,
    pub addresses: Seq<Seq<char>>,
}

#[verifier::ext_equal]
pub struct RouteView {
    pub to: Seq<char>,
    pub via: Seq<char>,
    pub dev: Option<Seq<char>>,
}

#[verifier::ext_equal]
pub struct QdiscView {
    pub dev: Seq<char>,
    pub kind: Seq<char>,
}

impl View for Iface {
    type V = IfaceView;

    open spec fn view(&self) -> IfaceView {
        IfaceView {
            name: self.name@,
            placement: self.placement@,
            role: text_opt(self.role),
            addresses: texts(self.addresses@),
            vlan: self.vlan,
            parent: text_opt(self.parent),
            dhcp: self.dhcp,
        }
    }
}

impl View for Wg {
    type V = WgView;

    open spec fn view(&self) -> WgView {
        WgView {
            name: self.name@,
            private_key: self.private_key@,
            listen_port: self.listen_port,
            addresses: texts(self.addresses@),
        }
    }
}

impl View for StaticRoute {
    type V = RouteView;

    open spec fn view(&self) -> RouteView {
        RouteView { to: self.to@, via: self.via@, dev: text_opt(self.dev) }
    }
}

impl View for Qdisc {
    type V = QdiscView;

    open spec fn view(&self) -> QdiscView {
        QdiscView { dev: self.dev@, kind: self.kind@ }
    }
}

pub open spec fn iface_views(v: Seq<Iface>) -> Seq<IfaceView> {
    Seq::new(v.len(), |i: int| v[i]@)
}

pub open spec fn wg_views(v: Seq<Wg>) -> Seq<WgView> {
    Seq::new(v.len(), |i: int| v[i]@)
}

pub open spec fn route_views(v: Seq<StaticRoute>) -> Seq<RouteView> {
    Seq::new(v.len(), |i: int| v[i]@)
}

pub open spec fn qdisc_views(v: Seq<Qdisc>) -> Seq<QdiscView> {
    Seq::new(v.len(), |i: int| v[i]@)
}

impl View for DesiredState {
    type V = DesiredView;

    open spec fn view(&self) -> DesiredView {
        DesiredView {
            revision: self.revision,
            interfaces: iface_views(self.interfaces@),
            wireguard: wg_views(self.wireguard@),
            routes: route_views(self.routes@),
            nft_extra: texts(self.nft_extra@),
            qdiscs: qdisc_views(self.qdiscs@),
            hostname: text_opt(self.hostname),
            lan_prefix: text_opt(self.lan_prefix),
            dhcp_pool: text_opt(self.dhcp_pool),
            wan_pd: text_opt(self.wan_pd),
            ui_exposure: texts(self.ui_exposure@),
            apply_confirmation: self.apply_confirmation,
        }
    }
}

// ---------------------------------------------------------------------------
// Copies
// ---------------------------------------------------------------------------

impl Clone for Iface {
    fn clone(&self) -> (r: Self)
        ensures
            r@ == self@,
    {
        Iface {
            name: self.name.clone(),
            placement: self.placement.clone(),
            role: copy_opt(&self.role),
            addresses: copy_texts(&self.addresses),
            vlan: self.vlan,
            parent: copy_opt(&self.parent),
            dhcp: self.dhcp,
        }
    }
}

impl Clone for Wg {
    fn clone(&self) -> (r: Self)
        ensures
            r@ == self@,
    {
        Wg {
            name: self.name.clone(),
            private_key: self.private_key.clone(),
            listen_port: self.listen_port,
            addresses: copy_texts(&self.addresses),
        }
    }
}

impl Clone for StaticRoute {
    fn clone(&self) -> (r: Self)
        ensures
            r@ == self@,
    {
        StaticRoute { to: self.to.clone(), via: self.via.clone(), dev: copy_opt(&self.dev) }
    }
}

impl Clone for Qdisc {
    fn clone(&self) -> (r: Self)
        ensures
            r@ == self@,
    {
        Qdisc { dev: self.dev.clone(), kind: self.kind.clone() }
    }
}

/// The interfaces again.
pub fn copy_ifaces(v: &Vec<Iface>) -> (r: Vec<Iface>)
    ensures
        iface_views(r@) == iface_views(v@),
{
    let mut out: Vec<Iface> = Vec::new();
    let mut i: usize = 0;
    while i < v.len()
        invariant
            i <= v@.len(),
            out@.len() == i,
            forall|j: int| 0 <= j < i ==> (#[trigger] out@[j])@ == v@[j]@,
        decreases v@.len() - i,
    {
        out.push(v[i].clone());
        i = i + 1;
    }
    assert(iface_views(out@) == iface_views(v@));
    out
}

fn copy_wgs(v: &Vec<Wg>) -> (r: Vec<Wg>)
    ensures
        wg_views(r@) == wg_views(v@),
{
    let mut out: Vec<Wg> = Vec::new();
    let mut i: usize = 0;
    while i < v.len()
        invariant
            i <= v@.len(),
            out@.len() == i,
            forall|j: int| 0 <= j < i ==> (#[trigger] out@[j])@ == v@[j]@,
        decreases v@.len() - i,
    {
        out.push(v[i].clone());
        i = i + 1;
    }
    assert(wg_views(out@) == wg_views(v@));
    out
}

fn copy_routes(v: &Vec<StaticRoute>) -> (r: Vec<StaticRoute>)
    ensures
        route_views(r@) == route_views(v@),
{
    let mut out: Vec<StaticRoute> = Vec::new();
    let mut i: usize = 0;
    while i < v.len()
        invariant
            i <= v@.len(),
            out@.len() == i,
            forall|j: int| 0 <= j < i ==> (#[trigger] out@[j])@ == v@[j]@,
        decreases v@.len() - i,
    {
        out.push(v[i].clone());
        i = i + 1;
    }
    assert(route_views(out@) == route_views(v@));
    out
}

fn copy_qdiscs(v: &Vec<Qdisc>) -> (r: Vec<Qdisc>)
    ensures
        qdisc_views(r@) == qdisc_views(v@),
{
    let mut out: Vec<Qdisc> = Vec::new();
    let mut i: usize = 0;
    while i < v.len()
        invariant
            i <= v@.len(),
            out@.len() == i,
            forall|j: int| 0 <= j < i ==> (#[trigger] out@[j])@ == v@[j]@,
        decreases v@.len() - i,
    {
        out.push(v[i].clone());
        i = i + 1;
    }
    assert(qdisc_views(out@) == qdisc_views(v@));
    out
}

impl Clone for DesiredState {
    fn clone(&self) -> (r: Self)
        ensures
            r@ == self@,
    {
        DesiredState {
            revision: self.revision,
            interfaces: copy_ifaces(&self.interfaces),
            wireguard: copy_wgs(&self.wireguard),
            routes: copy_routes(&self.routes),
            nft_extra: copy_texts(&self.nft_extra),
            qdiscs: copy_qdiscs(&self.qdiscs),
            hostname: copy_opt(&self.hostname),
            lan_prefix: copy_opt(&self.lan_prefix),
            dhcp_pool: copy_opt(&self.dhcp_pool),
            wan_pd: copy_opt(&self.wan_pd),
            ui_exposure: copy_texts(&self.ui_exposure),
            apply_confirmation: self.apply_confirmation,
        }
    }
}

/// The revision that a state starts with.
pub const INITIAL_REVISION: u64 = 1;

/// The state of a fresh appliance: the first revision of nothing.
pub open spec fn empty_state() -> DesiredView {
    DesiredView {
        revision: INITIAL_REVISION,
        interfaces: Seq::empty(),
        wireguard: Seq::empty(),
        routes: Seq::empty(),
        nft_extra: Seq::empty(),
        qdiscs: Seq::empty(),
        hostname: None,
        lan_prefix: None,
        dhcp_pool: None,
        wan_pd: None,
        ui_exposure: Seq::empty(),
        apply_confirmation: false,
    }
}

impl Default for DesiredState {
    fn default() -> (r: Self)
        ensures
            r@ == empty_state(),
    {
        let r = DesiredState {
            revision: INITIAL_REVISION,
            interfaces: Vec::new(),
            wireguard: Vec::new(),
            routes: Vec::new(),
            nft_extra: Vec::new(),
            qdiscs: Vec::new(),
            hostname: None,
            lan_prefix: None,
            dhcp_pool: None,
            wan_pd: None,
            ui_exposure: Vec::new(),
            apply_confirmation: false,
        };
        assert(r@ =~~= empty_state());
        r
    }
}

} // verus!
