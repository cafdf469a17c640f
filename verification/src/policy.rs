//! What a Desired state may say: the rules that every state has to keep
//! before it is applied, and what follows from a state that keeps them.

use crate::bootstrap_values;
use crate::bootstrap_values::{addressing_error, interface_error};
use crate::desired::{DesiredState, DesiredView, Iface, IfaceView, QdiscView};
use crate::ip;
use crate::ip::{
    link_local_v6, multicast, network, parse, parse_cidr, same_prefix, unspecified, IpAddr,
};
use crate::text;
use crate::text::{
    as_opt, before, collect, decimal, failure, first_some, is_text, lemma_first_some,
    lemma_first_some_none, parse_unsigned, print, rsplit_once, same, split, split_once, str_opt,
    text_opt, texts,
};
use base64::Engine;
use vstd::prelude::*;

verus! {

// ---------------------------------------------------------------------------
// Roles
// ---------------------------------------------------------------------------

/// Whether an interface has that role.
pub open spec fn has_role(i: IfaceView, role: Seq<char>) -> bool {
    i.role == Some(role)
}

/// Whether an interface has that role.
pub fn in_role(i: &Iface, role: &str) -> (r: bool)
    ensures
        r == has_role(i@, role@),
{
    is_text(&i.role, role)
}

/// The first thing, or else the second.
pub open spec fn or(a: Option<Seq<char>>, b: Option<Seq<char>>) -> Option<Seq<char>> {
    if a is Some {
        a
    } else {
        b
    }
}

/// The link that an interface sits on, and its tag there.
pub open spec fn link_of(i: IfaceView) -> (Seq<char>, Option<u16>) {
    (
        match i.parent {
            Some(p) => p,
            None => if i.vlan is Some {
                match rsplit_once(i.name, '.') {
                    Some((p, _)) => p,
                    None => i.name,
                }
            } else {
                i.name
            },
        },
        i.vlan,
    )
}

/// The link that an interface sits on, and its tag there.
pub fn l2_key(i: &Iface) -> (r: (String, Option<u16>))
    ensures
        (r.0@, r.1) == link_of(i@),
{
    let parent = match &i.parent {
        Some(p) => p.clone(),
        None => if i.vlan.is_some() {
            match text::rcut(i.name.as_str(), '.') {
                Some((p, _)) => p,
                None => i.name.clone(),
            }
        } else {
            i.name.clone()
        },
    };
    (parent, i.vlan)
}

/// The place of the first interface that `p` holds of.
pub open spec fn first_iface(v: Seq<IfaceView>, p: spec_fn(IfaceView) -> bool) -> Option<int> {
    first_some(
        v.len(),
        |i: int|
            if p(v[i]) {
                Some(i)
            } else {
                None
            },
    )
}

pub open spec fn named(name: Seq<char>) -> spec_fn(IfaceView) -> bool {
    |i: IfaceView| i.name == name
}

pub open spec fn in_lan() -> spec_fn(IfaceView) -> bool {
    |i: IfaceView| has_role(i, "lan"@)
}

/// Named, and no WAN.
pub open spec fn exposable(name: Seq<char>) -> spec_fn(IfaceView) -> bool {
    |i: IfaceView| i.name == name && !has_role(i, "wan"@)
}

/// The first that the predicate holds of is at `k`.
pub proof fn lemma_first_iface(v: Seq<IfaceView>, p: spec_fn(IfaceView) -> bool, k: int)
    requires
        0 <= k <= v.len(),
        k < v.len() ==> p(v[k]),
        forall|j: int| 0 <= j < k ==> !p(#[trigger] v[j]),
    ensures
        k < v.len() ==> first_iface(v, p) == Some(k),
        k == v.len() ==> first_iface(v, p) is None,
{
    let f = |i: int|
        if p(v[i]) {
            Some(i)
        } else {
            None
        };
    lemma_first_some_none(k as nat, f);
    assert(first_some(k as nat, f) is None);
    if k < v.len() {
        assert(first_some((k + 1) as nat, f) == Some(k));
        lemma_first_some((k + 1) as nat, v.len(), f);
    }
}

/// What `first_iface` finds is there, and is the first.
pub proof fn lemma_found_iface(v: Seq<IfaceView>, p: spec_fn(IfaceView) -> bool)
    ensures
        match first_iface(v, p) {
            Some(k) => 0 <= k < v.len() && p(v[k]) && forall|j: int| 0 <= j < k ==> !p(#[trigger] v[j]),
            None => forall|j: int| 0 <= j < v.len() ==> !p(#[trigger] v[j]),
        },
{
    let f = |i: int|
        if p(v[i]) {
            Some(i)
        } else {
            None
        };
    lemma_found_at(v, p, v.len());
}

proof fn lemma_found_at(v: Seq<IfaceView>, p: spec_fn(IfaceView) -> bool, n: nat)
    requires
        n <= v.len(),
    ensures
        ({
            let f = |i: int|
                if p(v[i]) {
                    Some(i)
                } else {
                    None
                };
            match first_some(n, f) {
                Some(k) => 0 <= k < n && p(v[k]) && forall|j: int| 0 <= j < k ==> !p(#[trigger] v[j]),
                None => forall|j: int| 0 <= j < n ==> !p(#[trigger] v[j]),
            }
        }),
    decreases n,
{
    if n > 0 {
        lemma_found_at(v, p, (n - 1) as nat);
    }
}

/// The LAN interface: the first with that role.
pub open spec fn lan_place(s: DesiredView) -> Option<int> {
    first_iface(s.interfaces, in_lan())
}

/// The place of the LAN interface.
pub fn lan_index(s: &DesiredState) -> (r: Option<usize>)
    ensures
        match r {
            Some(k) => lan_place(s@) == Some(k as int) && k < s.interfaces@.len(),
            None => lan_place(s@) is None,
        },
{
    let ghost v = s@.interfaces;
    let mut k: usize = 0;
    while k < s.interfaces.len()
        invariant
            v == s@.interfaces,
            k <= s.interfaces@.len(),
            forall|j: int| 0 <= j < k ==> !in_lan()(#[trigger] v[j]),
        decreases s.interfaces@.len() - k,
    {
        assert(v[k as int] == s.interfaces@[k as int]@);
        if in_role(&s.interfaces[k], "lan") {
            proof {
                lemma_first_iface(v, in_lan(), k as int);
            }
            return Some(k);
        }
        k = k + 1;
    }
    proof {
        lemma_first_iface(v, in_lan(), k as int);
    }
    None
}

/// The LAN interface.
pub fn lan_l2(s: &DesiredState) -> (r: Option<&Iface>)
    ensures
        match r {
            Some(i) => lan_place(s@) is Some && i@ == s@.interfaces[lan_place(s@)->0],
            None => lan_place(s@) is None,
        },
{
    match lan_index(s) {
        Some(k) => Some(&s.interfaces[k]),
        None => None,
    }
}

/// The place of the first interface of that name.
pub fn find_named(s: &DesiredState, name: &str) -> (r: Option<usize>)
    ensures
        match r {
            Some(k) => first_iface(s@.interfaces, named(name@)) == Some(k as int) && k
                < s.interfaces@.len(),
            None => first_iface(s@.interfaces, named(name@)) is None,
        },
{
    let ghost v = s@.interfaces;
    let mut k: usize = 0;
    while k < s.interfaces.len()
        invariant
            v == s@.interfaces,
            k <= s.interfaces@.len(),
            forall|j: int| 0 <= j < k ==> !named(name@)(#[trigger] v[j]),
        decreases s.interfaces@.len() - k,
    {
        assert(v[k as int] == s.interfaces@[k as int]@);
        if same(s.interfaces[k].name.as_str(), name) {
            proof {
                lemma_first_iface(v, named(name@), k as int);
            }
            return Some(k);
        }
        k = k + 1;
    }
    proof {
        lemma_first_iface(v, named(name@), k as int);
    }
    None
}

// ---------------------------------------------------------------------------
// Dotted prefixes and pools
// ---------------------------------------------------------------------------

/// The numbers up to 255 among the dotted parts.
pub open spec fn octets(s: Seq<char>) -> Seq<nat> {
    collect(split(s, '.').len(), |i: int| parse_unsigned(split(s, '.')[i], 255))
}

pub open spec fn dotted(a: nat, b: nat, c: nat, d: nat) -> Seq<char> {
    decimal(a) + "."@ + decimal(b) + "."@ + decimal(c) + "."@ + decimal(d)
}

/// The first host of a dotted prefix: its address, with a last part of 1 where
/// that is 0.
pub open spec fn first_host(cidr: Seq<char>) -> Option<Seq<char>> {
    let o = octets(before(cidr, '/'));
    if o.len() == 4 {
        Some(
            dotted(
                o[0],
                o[1],
                o[2],
                if o[3] == 0 {
                    1
                } else {
                    o[3]
                },
            ),
        )
    } else {
        None
    }
}

/// `s` without spaces.
pub open spec fn without_spaces(s: Seq<char>) -> Seq<char> {
    collect(
        s.len(),
        |i: int|
            if s[i] == ' ' {
                None
            } else {
                Some(s[i])
            },
    )
}

/// The two ends of a pool, written with or without spaces.
pub open spec fn pool_bounds(pool: Seq<char>) -> (Seq<char>, Seq<char>) {
    let p = without_spaces(pool);
    match split_once(p, '-') {
        Some(ends) => ends,
        None => (p, p),
    }
}

/// The 24-bit prefix that the first address of a pool lies in.
pub open spec fn pool_prefix(pool: Seq<char>) -> Option<Seq<char>> {
    let o = octets(pool_bounds(pool).0);
    if o.len() == 4 {
        Some(dotted(o[0], o[1], o[2], 0) + "/24"@)
    } else {
        None
    }
}

fn read_octets(s: &str) -> (r: Vec<u8>)
    ensures
        r@.len() == octets(s@).len(),
        forall|i: int| 0 <= i < r@.len() ==> #[trigger] r@[i] == octets(s@)[i],
{
    let p = text::parts(s, '.');
    let ghost q = split(s@, '.');
    let ghost f = |i: int| parse_unsigned(split(s@, '.')[i], 255);
    let mut out: Vec<u8> = Vec::new();
    let mut i: usize = 0;
    while i < p.len()
        invariant
            texts(p@) == q,
            q == split(s@, '.'),
            f == (|i: int| parse_unsigned(split(s@, '.')[i], 255)),
            i <= p@.len(),
            out@.len() == collect(i as nat, f).len(),
            forall|j: int| 0 <= j < out@.len() ==> #[trigger] out@[j] == collect(i as nat, f)[j],
        decreases p@.len() - i,
    {
        assert(q[i as int] == texts(p@)[i as int]);
        match text::parse_number(p[i].as_str(), 255) {
            Some(n) => {
                out.push(n as u8);
            },
            None => {},
        }
        i = i + 1;
    }
    out
}

fn write_dotted(a: u8, b: u8, c: u8, d: u8) -> (r: String)
    ensures
        r@ == dotted(a as nat, b as nat, c as nat, d as nat),
{
    print(a as u64).concat(".").concat(print(b as u64).as_str()).concat(".").concat(
        print(c as u64).as_str(),
    ).concat(".").concat(print(d as u64).as_str())
}

/// The first host of a dotted prefix.
pub fn first_v4_host(cidr: &str) -> (r: Option<String>)
    ensures
        text_opt(r) == first_host(cidr@),
{
    let o = read_octets(text::head(cidr, '/').as_str());
    if o.len() != 4 {
        return None;
    }
    let last: u8 = if o[3] == 0 {
        1
    } else {
        o[3]
    };
    Some(write_dotted(o[0], o[1], o[2], last))
}

/// The two ends of a pool.
pub fn split_pool(pool: &str) -> (r: (String, String))
    ensures
        (r.0@, r.1@) == pool_bounds(pool@),
{
    let v = text::chars_of(pool);
    let mut p = String::new();
    let ghost f = |i: int|
        if pool@[i] == ' ' {
            None
        } else {
            Some(pool@[i])
        };
    let mut i: usize = 0;
    while i < v.len()
        invariant
            v@ == pool@,
            i <= v@.len(),
            f == (|i: int|
                if pool@[i] == ' ' {
                    None
                } else {
                    Some(pool@[i])
                }),
            p@ == collect(i as nat, f),
        decreases v@.len() - i,
    {
        if v[i] != ' ' {
            p.push(v[i]);
        }
        i = i + 1;
    }
    match text::cut(p.as_str(), '-') {
        Some(ends) => ends,
        None => (p.clone(), p),
    }
}

/// The 24-bit prefix that the first address of a pool lies in.
pub fn prefix_from_pool(pool: &str) -> (r: Option<String>)
    ensures
        text_opt(r) == pool_prefix(pool@),
{
    let (start, _) = split_pool(pool);
    let o = read_octets(start.as_str());
    if o.len() != 4 {
        return None;
    }
    Some(write_dotted(o[0], o[1], o[2], 0).concat("/24"))
}

// ---------------------------------------------------------------------------
// Next hops
// ---------------------------------------------------------------------------

/// Whether a gateway is another address of the prefix that an interface
/// address stands in.
pub open spec fn in_cidr(gateway: IpAddr, cidr: Seq<char>) -> bool {
    match parse_cidr(cidr) {
        Some((a, len)) => {
            &&& gateway != a
            &&& gateway.width() == a.width()
            &&& same_prefix(gateway.number(), a.number(), len, a.width())
        },
        None => false,
    }
}

/// The address that the LAN prefix gives the LAN interface.
pub open spec fn lan_prefix_address(s: DesiredView) -> Option<Seq<char>> {
    match s.lan_prefix {
        Some(p) => match (first_host(p), split_once(p, '/')) {
            (Some(host), Some((_, bits))) => Some(host + "/"@ + bits),
            _ => None,
        },
        None => None,
    }
}

/// Whether the gateway is on the link of the interface at place `i`.
pub open spec fn on_link_at(s: DesiredView, gateway: IpAddr, dev: Option<Seq<char>>, i: int) -> bool {
    let iface = s.interfaces[i];
    &&& dev is None || dev->0 == iface.name
    &&& !has_role(iface, "mgmt"@)
    &&& {
        ||| exists|k: int| 0 <= k < iface.addresses.len() && in_cidr(gateway, #[trigger] iface.addresses[k])
        ||| {
            &&& lan_place(s) is Some
            &&& s.interfaces[lan_place(s)->0].name == iface.name
            &&& lan_prefix_address(s) is Some
            &&& in_cidr(gateway, lan_prefix_address(s)->0)
        }
    }
}

/// Whether the gateway is on the link of a configured interface.
pub open spec fn on_link(s: DesiredView, gateway: IpAddr, dev: Option<Seq<char>>) -> bool {
    exists|i: int| 0 <= i < s.interfaces.len() && #[trigger] on_link_at(s, gateway, dev, i)
}

/// Whether a gateway is another address of the prefix that an interface
/// address stands in.
pub fn gateway_in_cidr(gateway: IpAddr, cidr: &str) -> (r: bool)
    ensures
        r == in_cidr(gateway, cidr@),
{
    match ip::cidr(cidr) {
        Some((a, len)) => match (gateway, a) {
            (IpAddr::V4(g), IpAddr::V4(b)) => g != b && ip::agree(g as u128, b as u128, len, 32),
            (IpAddr::V6(g), IpAddr::V6(b)) => g != b && ip::agree(g, b, len, 128),
            _ => false,
        },
        None => false,
    }
}

fn any_in_cidr(gateway: IpAddr, addresses: &Vec<String>) -> (r: bool)
    ensures
        r == (exists|k: int|
            0 <= k < addresses@.len() && in_cidr(gateway, #[trigger] texts(addresses@)[k])),
{
    let ghost t = texts(addresses@);
    let mut k: usize = 0;
    while k < addresses.len()
        invariant
            t == texts(addresses@),
            k <= addresses@.len(),
            forall|j: int| 0 <= j < k ==> !in_cidr(gateway, #[trigger] t[j]),
        decreases addresses@.len() - k,
    {
        assert(t[k as int] == addresses@[k as int]@);
        if gateway_in_cidr(gateway, addresses[k].as_str()) {
            return true;
        }
        k = k + 1;
    }
    false
}

fn lan_address(s: &DesiredState) -> (r: Option<String>)
    ensures
        text_opt(r) == lan_prefix_address(s@),
{
    match &s.lan_prefix {
        Some(p) => match (first_v4_host(p.as_str()), text::cut(p.as_str(), '/')) {
            (Some(host), Some((_, bits))) => Some(host.concat("/").concat(bits.as_str())),
            _ => None,
        },
        None => None,
    }
}

/// Whether the gateway is on the link of a configured interface.
pub fn route_next_hop_on_link(s: &DesiredState, gateway: IpAddr, dev: Option<&str>) -> (r: bool)
    ensures
        r == on_link(s@, gateway, str_opt(dev)),
{
    let lan = lan_l2(s);
    let extra = lan_address(s);
    let ghost v = s@.interfaces;
    let ghost d = str_opt(dev);
    let mut i: usize = 0;
    while i < s.interfaces.len()
        invariant
            v == s@.interfaces,
            d == str_opt(dev),
            match lan {
                Some(l) => lan_place(s@) is Some && l@ == s@.interfaces[lan_place(s@)->0],
                None => lan_place(s@) is None,
            },
            text_opt(extra) == lan_prefix_address(s@),
            i <= s.interfaces@.len(),
            forall|j: int| 0 <= j < i ==> !#[trigger] on_link_at(s@, gateway, d, j),
        decreases s.interfaces@.len() - i,
    {
        let iface = &s.interfaces[i];
        assert(v[i as int] == iface@);
        let wanted = match dev {
            Some(name) => same(name, iface.name.as_str()),
            None => true,
        };
        if wanted && !in_role(iface, "mgmt") {
            if any_in_cidr(gateway, &iface.addresses) {
                proof {
                    let t = texts(iface.addresses@);
                    let k = choose|k: int| 0 <= k < t.len() && in_cidr(gateway, #[trigger] t[k]);
                    assert(v[i as int].addresses[k] == t[k]);
                }
                assert(on_link_at(s@, gateway, d, i as int));
                return true;
            }
            match (lan, &extra) {
                (Some(l), Some(address)) => {
                    if same(l.name.as_str(), iface.name.as_str()) && gateway_in_cidr(
                        gateway,
                        address.as_str(),
                    ) {
                        assert(on_link_at(s@, gateway, d, i as int));
                        return true;
                    }
                },
                _ => {},
            }
        }
        i = i + 1;
    }
    false
}

// ---------------------------------------------------------------------------
// The rules of a Desired state
// ---------------------------------------------------------------------------

/// The number of bytes of a WireGuard private key.
pub const WIREGUARD_KEY_LEN: usize = 32;

pub open spec fn iface_rule(s: DesiredView) -> spec_fn(int) -> Option<Seq<char>> {
    |i: int|
        interface_error(
            s.interfaces[i].name,
            s.interfaces[i].parent,
            s.interfaces[i].vlan,
            s.interfaces[i].addresses,
        )
}

/// A tunnel is an interface without a parent, and its key has the right
/// length once decoded.
pub open spec fn wireguard_rule(s: DesiredView, keys: Seq<Option<Seq<u8>>>) -> spec_fn(int) -> Option<
    Seq<char>,
> {
    |i: int|
        or(
            interface_error(s.wireguard[i].name, None, None, s.wireguard[i].addresses),
            if keys[i] is Some && (keys[i]->0).len() == WIREGUARD_KEY_LEN {
                None
            } else {
                Some("WireGuard "@ + s.wireguard[i].name + " has an invalid private key"@)
            },
        )
}

/// Whether a device is one of the interfaces or tunnels.
pub open spec fn known_device(s: DesiredView, dev: Seq<char>) -> bool {
    ||| exists|i: int| 0 <= i < s.interfaces.len() && (#[trigger] s.interfaces[i]).name == dev
    ||| exists|i: int| 0 <= i < s.wireguard.len() && (#[trigger] s.wireguard[i]).name == dev
}

pub open spec fn known_kind(kind: Seq<char>) -> bool {
    kind == "fq_codel"@ || kind == "fq"@ || kind == "pfifo"@ || kind == "bfifo"@ || kind == "sfq"@ || kind
        == "cake"@
}

pub open spec fn qdisc_rule(s: DesiredView) -> spec_fn(int) -> Option<Seq<char>> {
    |i: int|
        if known_device(s, s.qdiscs[i].dev) && known_kind(s.qdiscs[i].kind) {
            None
        } else {
            Some("unsupported qdisc "@ + s.qdiscs[i].kind + " on "@ + s.qdiscs[i].dev)
        }
}

/// Whether one of the routes before place `i` has that destination.
pub open spec fn routed_before(s: DesiredView, i: int, to: (IpAddr, nat)) -> bool {
    exists|j: int| 0 <= j < i && parse_cidr((#[trigger] s.routes[j]).to) == Some(to)
}

/// What is wrong with the destination of the route at place `i`, if anything:
/// it is a prefix without further bits, and no earlier route has it.
pub open spec fn destination_error(s: DesiredView, i: int) -> Option<Seq<char>> {
    let to = s.routes[i].to;
    match parse_cidr(to) {
        None => if to.contains('/') {
            Some("invalid route destination "@ + to)
        } else {
            Some("route destination "@ + to + " must be a CIDR prefix"@)
        },
        Some((a, len)) => if network(a.number(), len, a.width()) != a.number() || routed_before(
            s,
            i,
            (a, len),
        ) {
            Some("invalid or duplicate route destination "@ + to)
        } else {
            None
        },
    }
}

/// What is wrong with the next hop of the route at place `i`, whose
/// destination is in order, if anything.
pub open spec fn next_hop_error(s: DesiredView, i: int) -> Option<Seq<char>> {
    let r = s.routes[i];
    let width = (parse_cidr(r.to)->0).0.width();
    match parse(r.via) {
        None => Some("invalid route next hop "@ + r.via),
        Some(g) => if g.width() != width || unspecified(g) || multicast(g) {
            Some("route "@ + r.to + " needs a usable next hop of the same IP family"@)
        } else if (g matches IpAddr::V6(a) && link_local_v6(a)) && r.dev is None {
            Some("route "@ + r.to + " needs an interface for a link-local next hop"@)
        } else if r.dev is Some && first_iface(s.interfaces, named(r.dev->0)) is None {
            Some("route "@ + r.to + " uses unknown interface "@ + r.dev->0)
        } else if !on_link(s, g, r.dev) {
            Some(
                "route "@ + r.to + " next hop "@ + r.via
                    + " needs a configured on-link interface address"@,
            )
        } else {
            None
        },
    }
}

/// What is wrong with the route at place `i`, if anything.
#[verifier::opaque]
pub open spec fn route_error(s: DesiredView, i: int) -> Option<Seq<char>> {
    or(destination_error(s, i), next_hop_error(s, i))
}

pub open spec fn route_rule(s: DesiredView) -> spec_fn(int) -> Option<Seq<char>> {
    |i: int| route_error(s, i)
}

pub open spec fn known_role(role: Seq<char>) -> bool {
    role == "wan"@ || role == "lan"@ || role == "unused"@ || role == "stick"@ || role == "mgmt"@
}

/// What is wrong with a management interface, if anything.
pub open spec fn management_error(i: IfaceView) -> Option<Seq<char>> {
    if i.vlan is Some || i.parent is Some {
        Some("Management NIC owns the whole parent"@)
    } else if i.dhcp {
        Some("Management NIC is on-link static; no DHCP"@)
    } else if i.addresses.len() == 0 {
        Some("Management NIC needs an on-link static prefix"@)
    } else {
        None
    }
}

pub open spec fn role_error(i: IfaceView) -> Option<Seq<char>> {
    if i.placement == "mgmt"@ {
        Some("placement=mgmt is not a contract; use roles and ui_exposure"@)
    } else if i.role is Some && !known_role(i.role->0) {
        Some("unknown role "@ + i.role->0)
    } else if has_role(i, "mgmt"@) {
        management_error(i)
    } else {
        None
    }
}

pub open spec fn role_rule(s: DesiredView) -> spec_fn(int) -> Option<Seq<char>> {
    |i: int| role_error(s.interfaces[i])
}

/// Whether some interface has that role.
pub open spec fn some_role(s: DesiredView, role: Seq<char>) -> bool {
    exists|i: int| 0 <= i < s.interfaces.len() && has_role(#[trigger] s.interfaces[i], role)
}

/// Whether a WAN and a LAN share a link and a tag.
pub open spec fn shared_link(s: DesiredView) -> bool {
    exists|w: int, l: int|
        0 <= w < s.interfaces.len() && 0 <= l < s.interfaces.len() && has_role(
            #[trigger] s.interfaces[w],
            "wan"@,
        ) && has_role(#[trigger] s.interfaces[l], "lan"@) && link_of(s.interfaces[w]) == link_of(
            s.interfaces[l],
        )
}

/// Whether a WAN or a LAN sits on the link of a management interface.
pub open spec fn shared_parent(s: DesiredView) -> bool {
    exists|x: int, m: int|
        0 <= x < s.interfaces.len() && 0 <= m < s.interfaces.len() && (has_role(
            #[trigger] s.interfaces[x],
            "wan"@,
        ) || has_role(s.interfaces[x], "lan"@)) && has_role(#[trigger] s.interfaces[m], "mgmt"@)
            && link_of(s.interfaces[x]).0 == link_of(s.interfaces[m]).0
}

pub open spec fn topology_error(s: DesiredView) -> Option<Seq<char>> {
    if !some_role(s, "wan"@) {
        Some("need at least one WAN"@)
    } else if !some_role(s, "lan"@) {
        Some("need at least one LAN"@)
    } else if shared_link(s) {
        Some("WAN and LAN must not share the same parent and tag"@)
    } else if shared_parent(s) {
        Some("WAN or LAN must not share a parent with a Management NIC"@)
    } else if s.ui_exposure.len() == 0 {
        Some("ui_exposure must not be empty"@)
    } else {
        None
    }
}

pub open spec fn exposure_rule(s: DesiredView) -> spec_fn(int) -> Option<Seq<char>> {
    |k: int|
        match first_iface(s.interfaces, named(s.ui_exposure[k])) {
            None => Some("ui_exposure "@ + s.ui_exposure[k] + " is not an interface"@),
            Some(i) => if has_role(s.interfaces[i], "wan"@) {
                Some("ui_exposure cannot include a WAN"@)
            } else {
                None
            },
        }
}

pub open spec fn management_rule(s: DesiredView) -> spec_fn(int) -> Option<Seq<char>> {
    |i: int|
        if has_role(s.interfaces[i], "mgmt"@) && !s.ui_exposure.contains(s.interfaces[i].name) {
            Some("Management NIC must be in ui_exposure"@)
        } else {
            None
        }
}

/// The first rule that a state breaks, where `keys` are its WireGuard keys
/// once decoded.
pub open spec fn state_error(s: DesiredView, keys: Seq<Option<Seq<u8>>>) -> Option<Seq<char>> {
    or(
        first_some(s.interfaces.len(), iface_rule(s)),
        or(
            addressing_error(s.lan_prefix, s.dhcp_pool, s.wan_pd),
            or(
                first_some(s.wireguard.len(), wireguard_rule(s, keys)),
                or(
                    first_some(s.qdiscs.len(), qdisc_rule(s)),
                    or(
                        first_some(s.routes.len(), route_rule(s)),
                        or(
                            first_some(s.interfaces.len(), role_rule(s)),
                            or(
                                topology_error(s),
                                or(
                                    first_some(s.ui_exposure.len(), exposure_rule(s)),
                                    first_some(s.interfaces.len(), management_rule(s)),
                                ),
                            ),
                        ),
                    ),
                ),
            ),
        ),
    )
}

fn check_ifaces(s: &DesiredState) -> (r: Result<(), String>)
    ensures
        failure(r) == first_some(s@.interfaces.len(), iface_rule(s@)),
{
    let ghost f = iface_rule(s@);
    let mut i: usize = 0;
    while i < s.interfaces.len()
        invariant
            i <= s.interfaces@.len(),
            f == iface_rule(s@),
            first_some(i as nat, f) is None,
        decreases s.interfaces@.len() - i,
    {
        let iface = &s.interfaces[i];
        assert(s@.interfaces[i as int] == iface@);
        match bootstrap_values::interface(
            iface.name.as_str(),
            as_opt(&iface.parent),
            iface.vlan,
            iface.addresses.as_slice(),
        ) {
            Ok(_) => {},
            Err(e) => {
                proof {
                    lemma_first_some((i + 1) as nat, s@.interfaces.len(), f);
                }
                return Err(e);
            },
        }
        i = i + 1;
    }
    Ok(())
}

/// The decoded keys as the model has them.
pub open spec fn key_views(keys: Seq<Option<Vec<u8>>>) -> Seq<Option<Seq<u8>>> {
    Seq::new(
        keys.len(),
        |i: int|
            match keys[i] {
                Some(k) => Some(k@),
                None => None,
            },
    )
}

fn check_wireguard(s: &DesiredState, keys: &Vec<Option<Vec<u8>>>) -> (r: Result<(), String>)
    requires
        keys@.len() == s.wireguard@.len(),
    ensures
        failure(r) == first_some(s@.wireguard.len(), wireguard_rule(s@, key_views(keys@))),
{
    let ghost f = wireguard_rule(s@, key_views(keys@));
    let mut i: usize = 0;
    while i < s.wireguard.len()
        invariant
            keys@.len() == s.wireguard@.len(),
            i <= s.wireguard@.len(),
            f == wireguard_rule(s@, key_views(keys@)),
            first_some(i as nat, f) is None,
        decreases s.wireguard@.len() - i,
    {
        let wg = &s.wireguard[i];
        assert(s@.wireguard[i as int] == wg@);
        let none: Option<&str> = None;
        match bootstrap_values::interface(wg.name.as_str(), none, None, wg.addresses.as_slice()) {
            Ok(_) => {},
            Err(e) => {
                proof {
                    lemma_first_some((i + 1) as nat, s@.wireguard.len(), f);
                }
                return Err(e);
            },
        }
        let fits = match &keys[i] {
            Some(k) => k.len() == WIREGUARD_KEY_LEN,
            None => false,
        };
        if !fits {
            proof {
                lemma_first_some((i + 1) as nat, s@.wireguard.len(), f);
            }
            return Err(
                "WireGuard ".to_owned().concat(wg.name.as_str()).concat(" has an invalid private key"),
            );
        }
        i = i + 1;
    }
    Ok(())
}

fn is_known_device(s: &DesiredState, dev: &str) -> (r: bool)
    ensures
        r == known_device(s@, dev@),
{
    match find_named(s, dev) {
        Some(k) => {
            proof {
                lemma_found_iface(s@.interfaces, named(dev@));
            }
            return true;
        },
        None => {
            proof {
                lemma_found_iface(s@.interfaces, named(dev@));
                assert forall|i: int| 0 <= i < s@.interfaces.len() implies (#[trigger] s@.interfaces[i]).name
                    != dev@ by {
                    assert(!named(dev@)(s@.interfaces[i]));
                }
            }
        },
    }
    let mut i: usize = 0;
    while i < s.wireguard.len()
        invariant
            i <= s.wireguard@.len(),
            forall|j: int| 0 <= j < s@.interfaces.len() ==> (#[trigger] s@.interfaces[j]).name != dev@,
            forall|j: int| 0 <= j < i ==> (#[trigger] s@.wireguard[j]).name != dev@,
        decreases s.wireguard@.len() - i,
    {
        assert(s@.wireguard[i as int] == s.wireguard@[i as int]@);
        if same(s.wireguard[i].name.as_str(), dev) {
            return true;
        }
        i = i + 1;
    }
    false
}

fn is_known_kind(kind: &str) -> (r: bool)
    ensures
        r == known_kind(kind@),
{
    same(kind, "fq_codel") || same(kind, "fq") || same(kind, "pfifo") || same(kind, "bfifo") || same(
        kind,
        "sfq",
    ) || same(kind, "cake")
}

fn check_qdiscs(s: &DesiredState) -> (r: Result<(), String>)
    ensures
        failure(r) == first_some(s@.qdiscs.len(), qdisc_rule(s@)),
{
    let ghost f = qdisc_rule(s@);
    let mut i: usize = 0;
    while i < s.qdiscs.len()
        invariant
            i <= s.qdiscs@.len(),
            f == qdisc_rule(s@),
            first_some(i as nat, f) is None,
        decreases s.qdiscs@.len() - i,
    {
        let q = &s.qdiscs[i];
        assert(s@.qdiscs[i as int] == q@);
        if !is_known_device(s, q.dev.as_str()) || !is_known_kind(q.kind.as_str()) {
            proof {
                lemma_first_some((i + 1) as nat, s@.qdiscs.len(), f);
            }
            return Err(
                "unsupported qdisc ".to_owned().concat(q.kind.as_str()).concat(" on ").concat(
                    q.dev.as_str(),
                ),
            );
        }
        i = i + 1;
    }
    Ok(())
}

fn is_network(a: IpAddr, len: u8) -> (r: bool)
    requires
        len <= a.width(),
    ensures
        r == (network(a.number(), len as nat, a.width()) == a.number()),
{
    match a {
        IpAddr::V4(x) => ip::ends_in_zeros(x as u128, len, 32),
        IpAddr::V6(x) => ip::ends_in_zeros(x, len, 128),
    }
}

fn was_routed(s: &DesiredState, n: usize, to: IpAddr, len: u8) -> (r: bool)
    requires
        n <= s.routes@.len(),
    ensures
        r == routed_before(s@, n as int, (to, len as nat)),
{
    let mut j: usize = 0;
    while j < n
        invariant
            j <= n <= s.routes@.len(),
            forall|k: int|
                0 <= k < j ==> parse_cidr((#[trigger] s@.routes[k]).to) != Some((to, len as nat)),
        decreases n - j,
    {
        assert(s@.routes[j as int] == s.routes@[j as int]@);
        match ip::cidr(s.routes[j].to.as_str()) {
            Some((a, l)) => {
                if a == to && l == len {
                    return true;
                }
            },
            None => {},
        }
        j = j + 1;
    }
    false
}

fn check_destination(s: &DesiredState, i: usize) -> (r: Result<(), String>)
    requires
        i < s.routes@.len(),
    ensures
        failure(r) == destination_error(s@, i as int),
{
    let to = s.routes[i].to.as_str();
    assert(s@.routes[i as int] == s.routes@[i as int]@);
    match ip::cidr(to) {
        None => {
            if text::has_char(to, '/') {
                Err("invalid route destination ".to_owned().concat(to))
            } else {
                Err("route destination ".to_owned().concat(to).concat(" must be a CIDR prefix"))
            }
        },
        Some((a, len)) => {
            if !is_network(a, len) || was_routed(s, i, a, len) {
                Err("invalid or duplicate route destination ".to_owned().concat(to))
            } else {
                Ok(())
            }
        },
    }
}

fn check_next_hop(s: &DesiredState, i: usize) -> (r: Result<(), String>)
    requires
        i < s.routes@.len(),
        destination_error(s@, i as int) is None,
    ensures
        failure(r) == next_hop_error(s@, i as int),
{
    let route = &s.routes[i];
    assert(s@.routes[i as int] == route@);
    let to = route.to.as_str();
    let gateway = match ip::read(route.via.as_str()) {
        Some(g) => g,
        None => return Err("invalid route next hop ".to_owned().concat(route.via.as_str())),
    };
    let same_family = match (ip::cidr(to), gateway) {
        (Some((IpAddr::V4(_), _)), IpAddr::V4(_)) => true,
        (Some((IpAddr::V6(_), _)), IpAddr::V6(_)) => true,
        _ => false,
    };
    if !same_family || ip::is_unspecified(gateway) || ip::is_multicast(gateway) {
        return Err(
            "route ".to_owned().concat(to).concat(" needs a usable next hop of the same IP family"),
        );
    }
    let local = match gateway {
        IpAddr::V6(a) => ip::is_link_local_v6(a),
        _ => false,
    };
    if local && route.dev.is_none() {
        return Err(
            "route ".to_owned().concat(to).concat(" needs an interface for a link-local next hop"),
        );
    }
    if let Some(dev) = &route.dev {
        if find_named(s, dev.as_str()).is_none() {
            return Err(
                "route ".to_owned().concat(to).concat(" uses unknown interface ").concat(dev.as_str()),
            );
        }
    }
    if !route_next_hop_on_link(s, gateway, as_opt(&route.dev)) {
        return Err(
            "route ".to_owned().concat(to).concat(" next hop ").concat(route.via.as_str()).concat(
                " needs a configured on-link interface address",
            ),
        );
    }
    Ok(())
}

fn check_route(s: &DesiredState, i: usize) -> (r: Result<(), String>)
    requires
        i < s.routes@.len(),
    ensures
        failure(r) == route_error(s@, i as int),
{
    reveal(route_error);
    match check_destination(s, i) {
        Ok(_) => check_next_hop(s, i),
        Err(e) => Err(e),
    }
}

fn check_routes(s: &DesiredState) -> (r: Result<(), String>)
    ensures
        failure(r) == first_some(s@.routes.len(), route_rule(s@)),
{
    let ghost f = route_rule(s@);
    let mut i: usize = 0;
    while i < s.routes.len()
        invariant
            i <= s.routes@.len(),
            f == route_rule(s@),
            first_some(i as nat, f) is None,
        decreases s.routes@.len() - i,
    {
        match check_route(s, i) {
            Ok(_) => {},
            Err(e) => {
                proof {
                    lemma_first_some((i + 1) as nat, s@.routes.len(), f);
                }
                return Err(e);
            },
        }
        i = i + 1;
    }
    Ok(())
}

/// Checks a management interface.
pub fn validate_mgmt_iface(i: &Iface) -> (r: Result<(), String>)
    ensures
        failure(r) == management_error(i@),
{
    if i.vlan.is_some() || i.parent.is_some() {
        return Err("Management NIC owns the whole parent".to_owned());
    }
    if i.dhcp {
        return Err("Management NIC is on-link static; no DHCP".to_owned());
    }
    if i.addresses.len() == 0 {
        return Err("Management NIC needs an on-link static prefix".to_owned());
    }
    Ok(())
}

pub(crate) fn check_role(i: &Iface) -> (r: Result<(), String>)
    ensures
        failure(r) == role_error(i@),
{
    if same(i.placement.as_str(), "mgmt") {
        return Err("placement=mgmt is not a contract; use roles and ui_exposure".to_owned());
    }
    if let Some(role) = &i.role {
        let role = role.as_str();
        if !(same(role, "wan") || same(role, "lan") || same(role, "unused") || same(role, "stick") || same(
            role,
            "mgmt",
        )) {
            return Err("unknown role ".to_owned().concat(role));
        }
    }
    if in_role(i, "mgmt") {
        validate_mgmt_iface(i)
    } else {
        Ok(())
    }
}

fn check_roles(s: &DesiredState) -> (r: Result<(), String>)
    ensures
        failure(r) == first_some(s@.interfaces.len(), role_rule(s@)),
{
    let ghost f = role_rule(s@);
    let mut i: usize = 0;
    while i < s.interfaces.len()
        invariant
            i <= s.interfaces@.len(),
            f == role_rule(s@),
            first_some(i as nat, f) is None,
        decreases s.interfaces@.len() - i,
    {
        assert(s@.interfaces[i as int] == s.interfaces@[i as int]@);
        match check_role(&s.interfaces[i]) {
            Ok(_) => {},
            Err(e) => {
                proof {
                    lemma_first_some((i + 1) as nat, s@.interfaces.len(), f);
                }
                return Err(e);
            },
        }
        i = i + 1;
    }
    Ok(())
}

fn any_role(s: &DesiredState, role: &str) -> (r: bool)
    ensures
        r == some_role(s@, role@),
{
    let mut i: usize = 0;
    while i < s.interfaces.len()
        invariant
            i <= s.interfaces@.len(),
            forall|j: int| 0 <= j < i ==> !has_role(#[trigger] s@.interfaces[j], role@),
        decreases s.interfaces@.len() - i,
    {
        assert(s@.interfaces[i as int] == s.interfaces@[i as int]@);
        if in_role(&s.interfaces[i], role) {
            return true;
        }
        i = i + 1;
    }
    false
}

fn on_same_link(a: &Iface, b: &Iface) -> (r: bool)
    ensures
        r == (link_of(a@) == link_of(b@)),
{
    let (p, v) = l2_key(a);
    let (q, w) = l2_key(b);
    let same_tag = match (v, w) {
        (Some(x), Some(y)) => x == y,
        (None, None) => true,
        _ => false,
    };
    same(p.as_str(), q.as_str()) && same_tag
}

fn on_same_parent(a: &Iface, b: &Iface) -> (r: bool)
    ensures
        r == (link_of(a@).0 == link_of(b@).0),
{
    let (p, _) = l2_key(a);
    let (q, _) = l2_key(b);
    same(p.as_str(), q.as_str())
}

fn has_shared_link(s: &DesiredState) -> (r: bool)
    ensures
        r == shared_link(s@),
{
    let ghost v = s@.interfaces;
    let n: usize = s.interfaces.len();
    let mut w: usize = 0;
    while w < n
        invariant
            v == s@.interfaces,
            n == s.interfaces@.len(),
            w <= n,
            forall|x: int, l: int|
                0 <= x < w && 0 <= l < n && has_role(#[trigger] v[x], "wan"@) && has_role(
                    #[trigger] v[l],
                    "lan"@,
                ) ==> link_of(v[x]) != link_of(v[l]),
        decreases n - w,
    {
        assert(v[w as int] == s.interfaces@[w as int]@);
        if in_role(&s.interfaces[w], "wan") {
            let mut l: usize = 0;
            while l < n
                invariant
                    v == s@.interfaces,
                    n == s.interfaces@.len(),
                    w < n,
                    l <= n,
                    v[w as int] == s.interfaces@[w as int]@,
                    has_role(v[w as int], "wan"@),
                    forall|k: int|
                        0 <= k < l && has_role(#[trigger] v[k], "lan"@) ==> link_of(v[w as int]) != link_of(
                            v[k],
                        ),
                decreases n - l,
            {
                assert(v[l as int] == s.interfaces@[l as int]@);
                if in_role(&s.interfaces[l], "lan") && on_same_link(&s.interfaces[w], &s.interfaces[l]) {
                    return true;
                }
                l = l + 1;
            }
        }
        w = w + 1;
    }
    false
}

fn has_shared_parent(s: &DesiredState) -> (r: bool)
    ensures
        r == shared_parent(s@),
{
    let ghost v = s@.interfaces;
    let n: usize = s.interfaces.len();
    let mut x: usize = 0;
    while x < n
        invariant
            v == s@.interfaces,
            n == s.interfaces@.len(),
            x <= n,
            forall|y: int, m: int|
                0 <= y < x && 0 <= m < n && (has_role(#[trigger] v[y], "wan"@) || has_role(v[y], "lan"@))
                    && has_role(#[trigger] v[m], "mgmt"@) ==> link_of(v[y]).0 != link_of(v[m]).0,
        decreases n - x,
    {
        assert(v[x as int] == s.interfaces@[x as int]@);
        if in_role(&s.interfaces[x], "wan") || in_role(&s.interfaces[x], "lan") {
            let mut m: usize = 0;
            while m < n
                invariant
                    v == s@.interfaces,
                    n == s.interfaces@.len(),
                    x < n,
                    m <= n,
                    v[x as int] == s.interfaces@[x as int]@,
                    has_role(v[x as int], "wan"@) || has_role(v[x as int], "lan"@),
                    forall|k: int|
                        0 <= k < m && has_role(#[trigger] v[k], "mgmt"@) ==> link_of(v[x as int]).0 != link_of(
                            v[k],
                        ).0,
                decreases n - m,
            {
                assert(v[m as int] == s.interfaces@[m as int]@);
                if in_role(&s.interfaces[m], "mgmt") && on_same_parent(&s.interfaces[x], &s.interfaces[m]) {
                    return true;
                }
                m = m + 1;
            }
        }
        x = x + 1;
    }
    false
}

pub(crate) fn check_topology(s: &DesiredState) -> (r: Result<(), String>)
    ensures
        failure(r) == topology_error(s@),
{
    if !any_role(s, "wan") {
        return Err("need at least one WAN".to_owned());
    }
    if !any_role(s, "lan") {
        return Err("need at least one LAN".to_owned());
    }
    if has_shared_link(s) {
        return Err("WAN and LAN must not share the same parent and tag".to_owned());
    }
    if has_shared_parent(s) {
        return Err("WAN or LAN must not share a parent with a Management NIC".to_owned());
    }
    if s.ui_exposure.len() == 0 {
        return Err("ui_exposure must not be empty".to_owned());
    }
    Ok(())
}

pub(crate) fn check_exposure(s: &DesiredState) -> (r: Result<(), String>)
    ensures
        failure(r) == first_some(s@.ui_exposure.len(), exposure_rule(s@)),
{
    let ghost f = exposure_rule(s@);
    let mut k: usize = 0;
    while k < s.ui_exposure.len()
        invariant
            k <= s.ui_exposure@.len(),
            f == exposure_rule(s@),
            first_some(k as nat, f) is None,
        decreases s.ui_exposure@.len() - k,
    {
        let name = s.ui_exposure[k].as_str();
        assert(s@.ui_exposure[k as int] == name@);
        match find_named(s, name) {
            None => {
                proof {
                    lemma_first_some((k + 1) as nat, s@.ui_exposure.len(), f);
                }
                return Err("ui_exposure ".to_owned().concat(name).concat(" is not an interface"));
            },
            Some(i) => {
                assert(s@.interfaces[i as int] == s.interfaces@[i as int]@);
                if in_role(&s.interfaces[i], "wan") {
                    proof {
                        lemma_first_some((k + 1) as nat, s@.ui_exposure.len(), f);
                    }
                    return Err("ui_exposure cannot include a WAN".to_owned());
                }
            },
        }
        k = k + 1;
    }
    Ok(())
}

/// Whether the web interface is exposed on the interface of that name.
pub fn exposes_ui(s: &DesiredState, name: &str) -> (r: bool)
    ensures
        r == s@.ui_exposure.contains(name@),
{
    text::holds_text(&s.ui_exposure, name)
}

pub(crate) fn check_management(s: &DesiredState) -> (r: Result<(), String>)
    ensures
        failure(r) == first_some(s@.interfaces.len(), management_rule(s@)),
{
    let ghost f = management_rule(s@);
    let mut i: usize = 0;
    while i < s.interfaces.len()
        invariant
            i <= s.interfaces@.len(),
            f == management_rule(s@),
            first_some(i as nat, f) is None,
        decreases s.interfaces@.len() - i,
    {
        let iface = &s.interfaces[i];
        assert(s@.interfaces[i as int] == iface@);
        if in_role(iface, "mgmt") && !exposes_ui(s, iface.name.as_str()) {
            proof {
                lemma_first_some((i + 1) as nat, s@.interfaces.len(), f);
            }
            return Err("Management NIC must be in ui_exposure".to_owned());
        }
        i = i + 1;
    }
    Ok(())
}

/// Checks a Desired state whose WireGuard keys have been decoded.
pub fn validate_decoded(s: &DesiredState, keys: &Vec<Option<Vec<u8>>>) -> (r: Result<(), String>)
    requires
        keys@.len() == s.wireguard@.len(),
    ensures
        failure(r) == state_error(s@, key_views(keys@)),
{
    match check_ifaces(s) {
        Ok(_) => {},
        Err(e) => return Err(e),
    }
    match bootstrap_values::addressing(as_opt(&s.lan_prefix), as_opt(&s.dhcp_pool), as_opt(&s.wan_pd)) {
        Ok(_) => {},
        Err(e) => return Err(e),
    }
    match check_wireguard(s, keys) {
        Ok(_) => {},
        Err(e) => return Err(e),
    }
    match check_qdiscs(s) {
        Ok(_) => {},
        Err(e) => return Err(e),
    }
    match check_routes(s) {
        Ok(_) => {},
        Err(e) => return Err(e),
    }
    match check_roles(s) {
        Ok(_) => {},
        Err(e) => return Err(e),
    }
    match check_topology(s) {
        Ok(_) => {},
        Err(e) => return Err(e),
    }
    match check_exposure(s) {
        Ok(_) => {},
        Err(e) => return Err(e),
    }
    check_management(s)
}

/// The bytes that `base64`'s standard engine decodes a text to, where it
/// decodes it.
pub uninterp spec fn base64_decoded(s: Seq<char>) -> Option<Seq<u8>>;

/// Calls `decode` of `base64::engine::general_purpose::STANDARD`. The claim
/// is that the outcome depends on the text alone.
#[verifier::external_body]
fn decode_base64(s: &str) -> (r: Option<Vec<u8>>)
    ensures
        match r {
            Some(b) => base64_decoded(s@) == Some(b@),
            None => base64_decoded(s@) is None,
        },
{
    base64::engine::general_purpose::STANDARD.decode(s).ok()
}

/// The keys of the tunnels, decoded.
pub open spec fn wireguard_keys(s: DesiredView) -> Seq<Option<Seq<u8>>> {
    Seq::new(s.wireguard.len(), |i: int| base64_decoded(s.wireguard[i].private_key))
}

/// The first rule that a state breaks.
pub open spec fn validate_error(s: DesiredView) -> Option<Seq<char>> {
    state_error(s, wireguard_keys(s))
}

/// Checks a Desired state.
pub fn validate(s: &DesiredState) -> (r: Result<(), String>)
    ensures
        failure(r) == validate_error(s@),
{
    let mut keys: Vec<Option<Vec<u8>>> = Vec::new();
    let mut i: usize = 0;
    while i < s.wireguard.len()
        invariant
            i <= s.wireguard@.len(),
            keys@.len() == i,
            forall|j: int|
                0 <= j < i ==> #[trigger] key_views(keys@)[j] == base64_decoded(
                    s@.wireguard[j].private_key,
                ),
        decreases s.wireguard@.len() - i,
    {
        let ghost before = keys@;
        assert(s@.wireguard[i as int] == s.wireguard@[i as int]@);
        keys.push(decode_base64(s.wireguard[i].private_key.as_str()));
        proof {
            assert forall|j: int| 0 <= j < i + 1 implies #[trigger] key_views(keys@)[j] == base64_decoded(
                s@.wireguard[j].private_key,
            ) by {
                if j < i {
                    assert(key_views(before)[j] == key_views(keys@)[j]);
                }
            }
        }
        i = i + 1;
    }
    assert(key_views(keys@) == wireguard_keys(s@));
    validate_decoded(s, &keys)
}

/// What a state that breaks no rule is: it has a WAN and a LAN, and none of
/// them share a link and a tag; a management interface has its link to itself
/// and is exposed; and the web interface is exposed somewhere, but on no WAN.
pub proof fn law_valid_state(s: DesiredView, keys: Seq<Option<Seq<u8>>>)
    requires
        state_error(s, keys) is None,
    ensures
        some_role(s, "wan"@),
        some_role(s, "lan"@),
        forall|w: int, l: int|
            0 <= w < s.interfaces.len() && 0 <= l < s.interfaces.len() && has_role(
                #[trigger] s.interfaces[w],
                "wan"@,
            ) && has_role(#[trigger] s.interfaces[l], "lan"@) ==> link_of(s.interfaces[w]) != link_of(
                s.interfaces[l],
            ),
        forall|x: int, m: int|
            0 <= x < s.interfaces.len() && 0 <= m < s.interfaces.len() && (has_role(
                #[trigger] s.interfaces[x],
                "wan"@,
            ) || has_role(s.interfaces[x], "lan"@)) && has_role(#[trigger] s.interfaces[m], "mgmt"@)
                ==> link_of(s.interfaces[x]).0 != link_of(s.interfaces[m]).0,
        s.ui_exposure.len() > 0,
        forall|k: int|
            0 <= k < s.ui_exposure.len() ==> match first_iface(
                s.interfaces,
                named(#[trigger] s.ui_exposure[k]),
            ) {
                Some(i) => 0 <= i < s.interfaces.len() && s.interfaces[i].name == s.ui_exposure[k]
                    && !has_role(s.interfaces[i], "wan"@),
                None => false,
            },
        forall|m: int|
            0 <= m < s.interfaces.len() && has_role(#[trigger] s.interfaces[m], "mgmt"@)
                ==> s.ui_exposure.contains(s.interfaces[m].name) && s.interfaces[m].vlan is None
                && s.interfaces[m].parent is None && !s.interfaces[m].dhcp && s.interfaces[m].addresses.len() > 0,
{
    lemma_first_some_none(s.ui_exposure.len(), exposure_rule(s));
    lemma_first_some_none(s.interfaces.len(), management_rule(s));
    lemma_first_some_none(s.interfaces.len(), role_rule(s));
    assert forall|k: int| 0 <= k < s.ui_exposure.len() implies match first_iface(
        s.interfaces,
        named(#[trigger] s.ui_exposure[k]),
    ) {
        Some(i) => 0 <= i < s.interfaces.len() && s.interfaces[i].name == s.ui_exposure[k] && !has_role(
            s.interfaces[i],
            "wan"@,
        ),
        None => false,
    } by {
        assert(exposure_rule(s)(k) is None);
        lemma_found_iface(s.interfaces, named(s.ui_exposure[k]));
    }
    assert forall|m: int| 0 <= m < s.interfaces.len() && has_role(#[trigger] s.interfaces[m], "mgmt"@) implies
        s.ui_exposure.contains(s.interfaces[m].name) && s.interfaces[m].vlan is None
        && s.interfaces[m].parent is None && !s.interfaces[m].dhcp && s.interfaces[m].addresses.len() > 0 by {
        assert(management_rule(s)(m) is None);
        assert(role_rule(s)(m) is None);
    }
}

/// The routes of a state that breaks no rule go to different prefixes.
pub proof fn law_valid_routes_are_distinct(s: DesiredView, keys: Seq<Option<Seq<u8>>>, i: int, j: int)
    requires
        state_error(s, keys) is None,
        0 <= j < i < s.routes.len(),
    ensures
        parse_cidr(s.routes[i].to) is Some,
        parse_cidr(s.routes[i].to) != parse_cidr(s.routes[j].to),
{
    lemma_first_some_none(s.routes.len(), route_rule(s));
    assert(route_rule(s)(i) is None);
    reveal(route_error);
    assert(destination_error(s, i) is None);
    if parse_cidr(s.routes[i].to) == parse_cidr(s.routes[j].to) {
        assert(routed_before(s, i, parse_cidr(s.routes[i].to)->0));
    }
}

/// The link that an interface sits on: its parent; without one, what stands
/// before the last dot of the name of a tagged interface; else the interface
/// itself.
pub proof fn law_links_of_interfaces(i: IfaceView, p: Seq<char>, t: Seq<char>)
    ensures
        link_of(i).1 == i.vlan,
        i.parent is Some ==> link_of(i).0 == i.parent->0,
        i.parent is None && i.vlan is None ==> link_of(i).0 == i.name,
        i.parent is None && i.vlan is Some && i.name == p + "."@ + t && !t.contains('.') ==> link_of(i).0 == p,
        i.parent is None && !i.name.contains('.') ==> link_of(i).0 == i.name,
{
    if i.name == p + "."@ + t && !t.contains('.') {
        reveal_strlit(".");
        let n = i.name;
        assert("."@ =~= seq!['.']);
        assert(n[p.len() as int] == '.');
        assert forall|j: int| p.len() < j < n.len() implies n[j] != '.' by {
            assert(n[j] == t[j - p.len() - 1]);
            assert(t.contains(t[j - p.len() - 1]));
        }
        text::lemma_past_last_is(n, '.', p.len() as int + 1);
        assert(n.take(p.len() as int) =~= p);
        assert(n.contains('.'));
    }
}

/// A next hop is on a link where it is another address of the prefix of an
/// address of some interface that is none of management, and that is the one
/// that the route names, if it names one.
pub proof fn law_next_hop_on_a_link(
    s: DesiredView,
    gateway: IpAddr,
    dev: Option<Seq<char>>,
    i: int,
    k: int,
    a: IpAddr,
    len: nat,
)
    requires
        0 <= i < s.interfaces.len(),
        dev is None || dev->0 == s.interfaces[i].name,
        s.interfaces[i].role != Some("mgmt"@),
        0 <= k < s.interfaces[i].addresses.len(),
        parse_cidr(s.interfaces[i].addresses[k]) == Some((a, len)),
        gateway != a,
        gateway.width() == a.width(),
        same_prefix(gateway.number(), a.number(), len, a.width()),
    ensures
        on_link(s, gateway, dev),
{
    assert(in_cidr(gateway, s.interfaces[i].addresses[k]));
    assert(on_link_at(s, gateway, dev, i));
}

/// Whether a route keeps the rules: its destination is a prefix without further
/// bits that no earlier route has; its next hop is an address of that family
/// that one can send to, and on the link of an interface; and it names an
/// interface that there is, which it has to where the next hop is link-local.
pub open spec fn fine_route(s: DesiredView, i: int) -> bool {
    let r = s.routes[i];
    &&& parse_cidr(r.to) is Some
    &&& parse(r.via) is Some
    &&& {
        let (a, len) = parse_cidr(r.to)->0;
        let g = parse(r.via)->0;
        &&& network(a.number(), len, a.width()) == a.number()
        &&& forall|j: int| 0 <= j < i ==> parse_cidr((#[trigger] s.routes[j]).to) != parse_cidr(r.to)
        &&& g.width() == a.width()
        &&& g.number() != 0
        &&& !multicast(g)
        &&& (g matches IpAddr::V6(x) && link_local_v6(x)) ==> r.dev is Some
        &&& r.dev is Some ==> exists|k: int| 0 <= k < s.interfaces.len() && (#[trigger] s.interfaces[k]).name == r.dev->0
        &&& on_link(s, g, r.dev)
    }
}

/// Whether an interface keeps the rules of its role.
pub open spec fn fine_role(i: IfaceView) -> bool {
    &&& i.placement != "mgmt"@
    &&& i.role is None || i.role == Some("wan"@) || i.role == Some("lan"@) || i.role == Some("unused"@) || i.role
        == Some("stick"@) || i.role == Some("mgmt"@)
    &&& i.role == Some("mgmt"@) ==> i.vlan is None && i.parent is None && !i.dhcp && i.addresses.len() > 0
}

/// Whether the interfaces of a state fit together.
#[verifier::opaque]
pub open spec fn fine_topology(s: DesiredView) -> bool {
    let v = s.interfaces;
    &&& exists|i: int| 0 <= i < v.len() && (#[trigger] v[i]).role == Some("wan"@)
    &&& exists|i: int| 0 <= i < v.len() && (#[trigger] v[i]).role == Some("lan"@)
    &&& forall|w: int, l: int|
        0 <= w < v.len() && 0 <= l < v.len() && (#[trigger] v[w]).role == Some("wan"@) && (#[trigger] v[l]).role
            == Some("lan"@) ==> link_of(v[w]) != link_of(v[l])
    &&& forall|x: int, m: int|
        0 <= x < v.len() && 0 <= m < v.len() && ((#[trigger] v[x]).role == Some("wan"@) || v[x].role == Some(
            "lan"@,
        )) && (#[trigger] v[m]).role == Some("mgmt"@) ==> link_of(v[x]).0 != link_of(v[m]).0
    &&& s.ui_exposure.len() > 0
    &&& forall|k: int|
        0 <= k < s.ui_exposure.len() ==> match first_iface(v, named(#[trigger] s.ui_exposure[k])) {
            Some(i) => v[i].role != Some("wan"@),
            None => false,
        }
    &&& forall|m: int|
        0 <= m < v.len() && (#[trigger] v[m]).role == Some("mgmt"@) ==> s.ui_exposure.contains(v[m].name)
}

/// Whether every interface of a state keeps the rules.
#[verifier::opaque]
pub open spec fn fine_interfaces(s: DesiredView) -> bool {
    forall|i: int|
        0 <= i < s.interfaces.len() ==> interface_error(
            (#[trigger] s.interfaces[i]).name,
            s.interfaces[i].parent,
            s.interfaces[i].vlan,
            s.interfaces[i].addresses,
        ) is None && fine_role(s.interfaces[i])
}

/// Whether every tunnel of a state keeps the rules, where `keys` are the private
/// keys as bytes.
#[verifier::opaque]
pub open spec fn fine_tunnels(s: DesiredView, keys: Seq<Option<Seq<u8>>>) -> bool {
    forall|i: int|
        0 <= i < s.wireguard.len() ==> interface_error(
            (#[trigger] s.wireguard[i]).name,
            None,
            None,
            s.wireguard[i].addresses,
        ) is None && keys[i] is Some && (keys[i]->0).len() == 32
}

/// Whether every queueing discipline of a state keeps the rules.
#[verifier::opaque]
pub open spec fn fine_qdiscs(s: DesiredView) -> bool {
    forall|i: int| 0 <= i < s.qdiscs.len() ==> fine_qdisc(s, #[trigger] s.qdiscs[i])
}

/// Whether every route of a state keeps the rules.
#[verifier::opaque]
pub open spec fn fine_routes(s: DesiredView) -> bool {
    forall|i: int| 0 <= i < s.routes.len() ==> #[trigger] fine_route(s, i)
}

/// A state breaks no rule just where each interface, tunnel, queueing
/// discipline and route keeps its own, the addressing is in order, and the
/// interfaces fit together.
pub proof fn law_valid_states_exactly(s: DesiredView, keys: Seq<Option<Seq<u8>>>)
    ensures
        state_error(s, keys) is None <==> fine_interfaces(s) && addressing_error(
            s.lan_prefix,
            s.dhcp_pool,
            s.wan_pd,
        ) is None && fine_tunnels(s, keys) && fine_qdiscs(s) && fine_routes(s) && fine_topology(s),
{
    let a = first_some(s.interfaces.len(), iface_rule(s));
    let b = addressing_error(s.lan_prefix, s.dhcp_pool, s.wan_pd);
    let c = first_some(s.wireguard.len(), wireguard_rule(s, keys));
    let d = first_some(s.qdiscs.len(), qdisc_rule(s));
    let e = first_some(s.routes.len(), route_rule(s));
    let f = first_some(s.interfaces.len(), role_rule(s));
    let g = topology_error(s);
    let h = first_some(s.ui_exposure.len(), exposure_rule(s));
    let j = first_some(s.interfaces.len(), management_rule(s));
    lemma_fine_interfaces(s);
    lemma_fine_tunnels(s, keys);
    lemma_fine_qdiscs(s);
    lemma_fine_routes(s);
    lemma_fine_fit(s);
    lemma_none_of_nine(a, b, c, d, e, f, g, h, j);
}

proof fn lemma_none_of_nine(
    a: Option<Seq<char>>,
    b: Option<Seq<char>>,
    c: Option<Seq<char>>,
    d: Option<Seq<char>>,
    e: Option<Seq<char>>,
    f: Option<Seq<char>>,
    g: Option<Seq<char>>,
    h: Option<Seq<char>>,
    j: Option<Seq<char>>,
)
    ensures
        or(a, or(b, or(c, or(d, or(e, or(f, or(g, or(h, j)))))))) is None <==> a is None && b is None && c is None
            && d is None && e is None && f is None && g is None && h is None && j is None,
{
}

proof fn lemma_fine_interfaces(s: DesiredView)
    ensures
        fine_interfaces(s) <==> first_some(s.interfaces.len(), iface_rule(s)) is None && first_some(
            s.interfaces.len(),
            role_rule(s),
        ) is None,
{
    reveal(fine_interfaces);
    lemma_first_some_none(s.interfaces.len(), iface_rule(s));
    lemma_first_some_none(s.interfaces.len(), role_rule(s));
    assert forall|i: int| 0 <= i < s.interfaces.len() implies (#[trigger] role_rule(s)(i) is None <==> fine_role(
        s.interfaces[i],
    )) by {}
    if first_some(s.interfaces.len(), iface_rule(s)) is None && first_some(s.interfaces.len(), role_rule(s)) is None {
        assert forall|i: int| 0 <= i < s.interfaces.len() implies interface_error(
            (#[trigger] s.interfaces[i]).name,
            s.interfaces[i].parent,
            s.interfaces[i].vlan,
            s.interfaces[i].addresses,
        ) is None && fine_role(s.interfaces[i]) by {
            assert(iface_rule(s)(i) is None);
            assert(role_rule(s)(i) is None);
        }
    }
}

proof fn lemma_fine_tunnels(s: DesiredView, keys: Seq<Option<Seq<u8>>>)
    ensures
        fine_tunnels(s, keys) <==> first_some(s.wireguard.len(), wireguard_rule(s, keys)) is None,
{
    reveal(fine_tunnels);
    lemma_first_some_none(s.wireguard.len(), wireguard_rule(s, keys));
    if first_some(s.wireguard.len(), wireguard_rule(s, keys)) is None {
        assert forall|i: int| 0 <= i < s.wireguard.len() implies interface_error(
            (#[trigger] s.wireguard[i]).name,
            None,
            None,
            s.wireguard[i].addresses,
        ) is None && keys[i] is Some && (keys[i]->0).len() == 32 by {
            assert(wireguard_rule(s, keys)(i) is None);
        }
    }
}

proof fn lemma_fine_qdiscs(s: DesiredView)
    ensures
        fine_qdiscs(s) <==> first_some(s.qdiscs.len(), qdisc_rule(s)) is None,
{
    reveal(fine_qdiscs);
    lemma_first_some_none(s.qdiscs.len(), qdisc_rule(s));
    if first_some(s.qdiscs.len(), qdisc_rule(s)) is None {
        assert forall|i: int| 0 <= i < s.qdiscs.len() implies fine_qdisc(s, #[trigger] s.qdiscs[i]) by {
            assert(qdisc_rule(s)(i) is None);
        }
    }
}

proof fn lemma_fine_routes(s: DesiredView)
    ensures
        fine_routes(s) <==> first_some(s.routes.len(), route_rule(s)) is None,
{
    reveal(fine_routes);
    let f = route_rule(s);
    lemma_first_some_none(s.routes.len(), f);
    if first_some(s.routes.len(), f) is None {
        assert forall|i: int| 0 <= i < s.routes.len() implies #[trigger] fine_route(s, i) by {
            lemma_fine_route(s, i);
            assert(f(i) is None);
        }
    }
    if fine_routes(s) {
        assert forall|i: int| 0 <= i < s.routes.len() implies #[trigger] f(i) is None by {
            lemma_fine_route(s, i);
            assert(fine_route(s, i));
        }
    }
}

pub proof fn lemma_fine_fit(s: DesiredView)
    ensures
        fine_topology(s) <==> topology_error(s) is None && first_some(s.ui_exposure.len(), exposure_rule(s)) is None
            && first_some(s.interfaces.len(), management_rule(s)) is None,
{
    lemma_first_some_none(s.ui_exposure.len(), exposure_rule(s));
    lemma_first_some_none(s.interfaces.len(), management_rule(s));
    lemma_fine_topology(s);
}

/// Whether a queueing discipline keeps the rules.
pub open spec fn fine_qdisc(s: DesiredView, q: QdiscView) -> bool {
    &&& known_device(s, q.dev)
    &&& q.kind == "fq_codel"@ || q.kind == "fq"@ || q.kind == "pfifo"@ || q.kind == "bfifo"@ || q.kind == "sfq"@
        || q.kind == "cake"@
}

proof fn lemma_fine_route(s: DesiredView, i: int)
    requires
        0 <= i < s.routes.len(),
    ensures
        route_rule(s)(i) is None <==> fine_route(s, i),
{
    reveal(route_error);
    let r = s.routes[i];
    if r.dev is Some {
        lemma_found_iface(s.interfaces, named(r.dev->0));
        match first_iface(s.interfaces, named(r.dev->0)) {
            Some(k) => {
                assert(named(r.dev->0)(s.interfaces[k]));
                assert(s.interfaces[k].name == r.dev->0);
            },
            None => {
                assert forall|k: int| 0 <= k < s.interfaces.len() implies (#[trigger] s.interfaces[k]).name
                    != r.dev->0 by {
                    assert(!named(r.dev->0)(s.interfaces[k]));
                }
            },
        }
    }
    if parse_cidr(r.to) is Some {
        let to = parse_cidr(r.to)->0;
        assert(routed_before(s, i, to) <==> !(forall|j: int|
            0 <= j < i ==> parse_cidr((#[trigger] s.routes[j]).to) != parse_cidr(r.to)));
    }
}

proof fn lemma_fine_topology(s: DesiredView)
    ensures
        fine_topology(s) <==> topology_error(s) is None && (forall|k: int|
            0 <= k < s.ui_exposure.len() ==> #[trigger] exposure_rule(s)(k) is None) && (forall|i: int|
            0 <= i < s.interfaces.len() ==> #[trigger] management_rule(s)(i) is None),
{
    reveal(fine_topology);
    let v = s.interfaces;
    assert forall|k: int| 0 <= k < s.ui_exposure.len() implies (#[trigger] exposure_rule(s)(k) is None
        <==> match first_iface(v, named(s.ui_exposure[k])) {
        Some(i) => v[i].role != Some("wan"@),
        None => false,
    }) by {}
    assert forall|i: int| 0 <= i < v.len() implies (#[trigger] management_rule(s)(i) is None <==> (v[i].role
        == Some("mgmt"@) ==> s.ui_exposure.contains(v[i].name))) by {}
    if fine_topology(s) {
        assert forall|k: int| 0 <= k < s.ui_exposure.len() implies #[trigger] exposure_rule(s)(k) is None by {
            assert(s.ui_exposure[k] == s.ui_exposure[k]);
        }
        assert forall|i: int| 0 <= i < v.len() implies #[trigger] management_rule(s)(i) is None by {
            assert(v[i] == v[i]);
        }
    }
    if topology_error(s) is None && (forall|k: int|
        0 <= k < s.ui_exposure.len() ==> #[trigger] exposure_rule(s)(k) is None) && (forall|i: int|
        0 <= i < s.interfaces.len() ==> #[trigger] management_rule(s)(i) is None) {
        assert forall|k: int| 0 <= k < s.ui_exposure.len() implies match first_iface(
            v,
            named(#[trigger] s.ui_exposure[k]),
        ) {
            Some(i) => v[i].role != Some("wan"@),
            None => false,
        } by {
            assert(exposure_rule(s)(k) is None);
        }
        assert forall|m: int| 0 <= m < v.len() && (#[trigger] v[m]).role == Some("mgmt"@) implies
            s.ui_exposure.contains(v[m].name) by {
            assert(management_rule(s)(m) is None);
        }
    }
}

/// What is said of the role of an interface.
pub proof fn lemma_fine_role(i: IfaceView)
    ensures
        role_error(i) is None <==> fine_role(i),
{
}

proof fn lemma_octet_reads_back(n: nat)
    requires
        n <= 255,
    ensures
        parse_unsigned(decimal(n), 255) == Some(n),
        forall|j: int| 0 <= j < decimal(n).len() ==> text::is_digit(#[trigger] decimal(n)[j]),
{
    text::lemma_digits(n, 10);
    let d = decimal(n);
    assert(text::all_digits(d));
    assert(text::is_digit(d[0]));
}

/// The numbers of a dotted text are those that it was written from.
proof fn lemma_octets_read_back(a: nat, b: nat, c: nat, d: nat)
    requires
        a <= 255 && b <= 255 && c <= 255 && d <= 255,
    ensures
        octets(dotted(a, b, c, d)) == seq![a, b, c, d],
        forall|j: int| 0 <= j < dotted(a, b, c, d).len() ==> text::is_digit(#[trigger] dotted(a, b, c, d)[j]) || dotted(
            a,
            b,
            c,
            d,
        )[j] == '.',
{
    lemma_octet_reads_back(a);
    lemma_octet_reads_back(b);
    lemma_octet_reads_back(c);
    lemma_octet_reads_back(d);
    let (x, y, z, w) = (decimal(a), decimal(b), decimal(c), decimal(d));
    let s = dotted(a, b, c, d);
    ip::lemma_dotted_parts(x, y, z, w);
    reveal_strlit(".");
    let p = seq![x, y, z, w];
    let f = |i: int| parse_unsigned(split(s, '.')[i], 255);
    assert(split(s, '.') == p);
    assert(f(0) == Some(a) && f(1) == Some(b) && f(2) == Some(c) && f(3) == Some(d));
    assert(collect(1, f) == collect(0, f).push(a));
    assert(collect(2, f) == collect(1, f).push(b));
    assert(collect(3, f) == collect(2, f).push(c));
    assert(collect(4, f) == collect(3, f).push(d));
    assert(octets(s) =~= seq![a, b, c, d]);
    let u = x + "."@ + y + "."@ + z + "."@;
    assert forall|j: int| 0 <= j < s.len() implies text::is_digit(#[trigger] s[j]) || s[j] == '.' by {
        let t = x + "."@;
        let t2 = t + y + "."@;
        if j < x.len() {
            assert(s[j] == x[j]);
        } else if j == x.len() {
        } else if j < t.len() + y.len() {
            assert(s[j] == y[j - t.len()]);
        } else if j == t.len() + y.len() {
        } else if j < t2.len() + z.len() {
            assert(s[j] == z[j - t2.len()]);
        } else if j == t2.len() + z.len() {
        } else {
            assert(s[j] == w[j - u.len()]);
        }
    }
}

/// The appliance stands on a LAN with the address that the prefix is written
/// with, or with the first of the prefix where that one ends in 0.
pub proof fn law_first_hosts(a: nat, b: nat, c: nat, d: nat, bits: Seq<char>)
    requires
        a <= 255 && b <= 255 && c <= 255 && d <= 255,
    ensures
        d > 0 ==> first_host(dotted(a, b, c, d) + "/"@ + bits) == Some(dotted(a, b, c, d)),
        first_host(dotted(a, b, c, 0) + "/"@ + bits) == Some(dotted(a, b, c, 1)),
{
    reveal_strlit("/");
    assert("/"@ =~= seq!['/']);
    lemma_octets_read_back(a, b, c, d);
    lemma_octets_read_back(a, b, c, 0);
    let s = dotted(a, b, c, d);
    let t = dotted(a, b, c, 0);
    assert(!s.contains('/')) by {
        if s.contains('/') {
            let k = choose|k: int| 0 <= k < s.len() && s[k] == '/';
            assert(text::is_digit(s[k]) || s[k] == '.');
        }
    }
    assert(!t.contains('/')) by {
        if t.contains('/') {
            let k = choose|k: int| 0 <= k < t.len() && t[k] == '/';
            assert(text::is_digit(t[k]) || t[k] == '.');
        }
    }
    text::lemma_split_once(s, '/', bits);
    text::lemma_split_once(t, '/', bits);
}

/// The ends of a pool are what stands before and behind its dash, and its prefix
/// is that of 24 bits in which the first one lies.
pub proof fn law_pools(a: nat, b: nat, c: nat, d: nat, to: Seq<char>)
    requires
        a <= 255 && b <= 255 && c <= 255 && d <= 255,
        !to.contains(' '),
    ensures
        pool_bounds(dotted(a, b, c, d) + "-"@ + to) == (dotted(a, b, c, d), to),
        pool_prefix(dotted(a, b, c, d) + "-"@ + to) == Some(dotted(a, b, c, 0) + "/24"@),
{
    reveal_strlit("-");
    assert("-"@ =~= seq!['-']);
    lemma_octets_read_back(a, b, c, d);
    let s = dotted(a, b, c, d);
    let p = s + "-"@ + to;
    assert(!s.contains('-')) by {
        if s.contains('-') {
            let k = choose|k: int| 0 <= k < s.len() && s[k] == '-';
            assert(text::is_digit(s[k]) || s[k] == '.');
        }
    }
    assert forall|j: int| 0 <= j < p.len() implies p[j] != ' ' by {
        if j < s.len() {
            assert(p[j] == s[j]);
            assert(text::is_digit(s[j]) || s[j] == '.');
        } else if j > s.len() {
            assert(p[j] == to[j - s.len() - 1]);
            assert(to.contains(to[j - s.len() - 1]));
        }
    }
    lemma_nothing_left_out(p, p.len());
    assert(p.take(p.len() as int) =~= p);
    text::lemma_split_once(s, '-', to);
}

proof fn lemma_nothing_left_out(p: Seq<char>, n: nat)
    requires
        n <= p.len(),
        forall|j: int| 0 <= j < p.len() ==> p[j] != ' ',
    ensures
        collect(
            n,
            |i: int|
                if p[i] == ' ' {
                    None
                } else {
                    Some(p[i])
                },
        ) == p.take(n as int),
    decreases n,
{
    if n > 0 {
        lemma_nothing_left_out(p, (n - 1) as nat);
        assert(p.take(n as int) =~= p.take(n - 1).push(p[n - 1]));
    } else {
        assert(p.take(0) =~= Seq::<char>::empty());
    }
}

/// The spaces round the dash of a pool do not matter.
pub proof fn law_spaces_of_a_pool_do_not_matter(a: Seq<char>, b: Seq<char>)
    ensures
        pool_bounds(a + " "@ + b) == pool_bounds(a + b),
        pool_prefix(a + " "@ + b) == pool_prefix(a + b),
{
    reveal_strlit(" ");
    assert(" "@ =~= seq![' ']);
    lemma_spaces_add(a, " "@ + b);
    lemma_spaces_add(" "@, b);
    lemma_spaces_add(a, b);
    assert(a + " "@ + b =~= a + (" "@ + b));
    let f = |i: int|
        if " "@[i] == ' ' {
            None
        } else {
            Some(" "@[i])
        };
    assert(f(0) is None);
    assert(collect(1, f) == collect(0, f));
    assert(without_spaces(" "@) == collect(1, f));
    assert(without_spaces(" "@) =~= Seq::<char>::empty());
    assert(Seq::<char>::empty() + without_spaces(b) =~= without_spaces(b));
}

proof fn lemma_spaces_add(a: Seq<char>, b: Seq<char>)
    ensures
        without_spaces(a + b) == without_spaces(a) + without_spaces(b),
    decreases b.len(),
{
    let s = a + b;
    let f = |i: int|
        if s[i] == ' ' {
            None
        } else {
            Some(s[i])
        };
    if b.len() == 0 {
        assert(s =~= a);
        assert(without_spaces(b) =~= Seq::<char>::empty());
        assert(without_spaces(a) + without_spaces(b) =~= without_spaces(a));
    } else {
        let c = b.drop_last();
        lemma_spaces_add(a, c);
        let t = a + c;
        assert(t =~= s.drop_last());
        lemma_spaces_prefix(s);
        lemma_spaces_prefix(b);
        assert(s.last() == b.last());
        assert(without_spaces(s) =~= without_spaces(a) + without_spaces(b));
    }
}

proof fn lemma_spaces_prefix(s: Seq<char>)
    requires
        s.len() > 0,
    ensures
        without_spaces(s) == (if s.last() == ' ' {
            without_spaces(s.drop_last())
        } else {
            without_spaces(s.drop_last()).push(s.last())
        }),
{
    let t = s.drop_last();
    let f = |i: int|
        if s[i] == ' ' {
            None
        } else {
            Some(s[i])
        };
    let g = |i: int|
        if t[i] == ' ' {
            None
        } else {
            Some(t[i])
        };
    lemma_collect_alike(t.len(), f, g);
    assert(without_spaces(s) == collect(s.len(), f));
    assert(without_spaces(t) == collect(t.len(), g));
}

proof fn lemma_collect_alike(n: nat, f: spec_fn(int) -> Option<char>, g: spec_fn(int) -> Option<char>)
    requires
        forall|i: int| 0 <= i < n ==> #[trigger] f(i) == g(i),
    ensures
        collect(n, f) == collect(n, g),
    decreases n,
{
    if n > 0 {
        lemma_collect_alike((n - 1) as nat, f, g);
        assert(f(n - 1) == g(n - 1));
    }
}

/// The LAN interface is the first with that role.
pub proof fn law_lan_is_the_first(s: DesiredView, k: int)
    requires
        0 <= k < s.interfaces.len(),
        s.interfaces[k].role == Some("lan"@),
        forall|i: int| 0 <= i < k ==> (#[trigger] s.interfaces[i]).role != Some("lan"@),
    ensures
        lan_place(s) == Some(k),
{
    let v = s.interfaces;
    let p = in_lan();
    let f = |i: int|
        if p(v[i]) {
            Some(i)
        } else {
            None
        };
    assert forall|i: int| 0 <= i < k implies #[trigger] f(i) is None by {
        assert(v[i].role != Some("lan"@));
    }
    assert(p(v[k]));
    text::lemma_first_some_is(v.len(), f, k);
    assert(first_iface(v, p) == first_some(v.len(), f));
}

/// A state that breaks no rule has a key of 32 bytes for every tunnel.
pub proof fn law_valid_tunnels_have_keys(s: DesiredView, i: int)
    requires
        validate_error(s) is None,
        0 <= i < s.wireguard.len(),
    ensures
        base64_decoded(s.wireguard[i].private_key) is Some,
        (base64_decoded(s.wireguard[i].private_key)->0).len() == 32,
{
    law_valid_states_exactly(s, wireguard_keys(s));
    reveal(fine_tunnels);
    assert(s.wireguard[i] == s.wireguard[i]);
}

/// A state whose tunnels have no such keys breaks a rule, whatever else it says.
pub proof fn law_tunnels_need_keys(s: DesiredView, i: int)
    requires
        0 <= i < s.wireguard.len(),
        base64_decoded(s.wireguard[i].private_key) is None || (base64_decoded(s.wireguard[i].private_key)->0).len() != 32,
    ensures
        validate_error(s) is Some,
{
    if validate_error(s) is None {
        law_valid_tunnels_have_keys(s, i);
    }
}

/// The devices that a queueing discipline can be on are the interfaces and the
/// tunnels of the state.
pub proof fn law_devices_of_a_state(s: DesiredView, dev: Seq<char>)
    ensures
        known_device(s, dev) <==> {
            ||| exists|i: int| 0 <= i < s.interfaces.len() && (#[trigger] s.interfaces[i]).name == dev
            ||| exists|i: int| 0 <= i < s.wireguard.len() && (#[trigger] s.wireguard[i]).name == dev
        },
{
}

/// A next hop is on the link of the LAN interface where it is another address of
/// the prefix that the LAN has.
pub proof fn law_next_hop_on_the_lan(
    s: DesiredView,
    gateway: IpAddr,
    dev: Option<Seq<char>>,
    k: int,
    p: Seq<char>,
    bits: Seq<char>,
    host: Seq<char>,
    a: IpAddr,
    len: nat,
)
    requires
        lan_place(s) == Some(k),
        dev is None || dev->0 == s.interfaces[k].name,
        s.lan_prefix == Some(p + "/"@ + bits),
        !p.contains('/'),
        first_host(p + "/"@ + bits) == Some(host),
        parse_cidr(host + "/"@ + bits) == Some((a, len)),
        gateway != a,
        gateway.width() == a.width(),
        same_prefix(gateway.number(), a.number(), len, a.width()),
    ensures
        on_link(s, gateway, dev),
{
    reveal_strlit("/");
    assert("/"@ =~= seq!['/']);
    text::lemma_split_once(p, '/', bits);
    lemma_found_iface(s.interfaces, in_lan());
    reveal_strlit("lan");
    reveal_strlit("mgmt");
    assert("lan"@.len() == 3 && "mgmt"@.len() == 4);
    assert(in_lan()(s.interfaces[k]));
    assert(in_cidr(gateway, host + "/"@ + bits));
    assert(on_link_at(s, gateway, dev, k));
}

} // verus!
