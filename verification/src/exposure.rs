//! On which interfaces, and at which addresses, the web interface is reached.

use crate::desired::{DesiredState, DesiredView};
use crate::ip;
use crate::ip::{
    link_local_v4, link_local_v6, loopback_v4, octet_of, parse, parse_v4, parse_v6, private_v4,
    unique_local_v6, IpAddr,
};
use crate::policy::{exposable, first_iface, has_role, in_role, lemma_first_iface, lemma_found_iface};
use crate::text;
use crate::text::{before, collect, copy_texts, lemma_collected, same, texts};
use vstd::prelude::*;

verus! {

/// Whether the web interface may be reached at that address: a private or
/// link-local one, but for the appliance's own plumbing.
pub open spec fn reachable(s: Seq<char>) -> bool {
    match parse_v4(s) {
        Some(a) => {
            &&& !loopback_v4(a)
            &&& !(octet_of(a, 0) == 100 && 64 <= octet_of(a, 1) <= 127)
            &&& !(octet_of(a, 0) == 169 && octet_of(a, 1) == 254 && octet_of(a, 2) == 127)
            &&& private_v4(a) || link_local_v4(a)
        },
        None => match parse_v6(s) {
            Some(a) => a != 1 && (link_local_v6(a) || unique_local_v6(a)),
            None => false,
        },
    }
}

/// Whether the web interface may be reached at that address.
pub fn expose_allowed(s: &str) -> (r: bool)
    ensures
        r == reachable(s@),
{
    if let Some(a) = ip::read_v4(s) {
        if ip::is_loopback_v4(a) {
            return false;
        }
        let x: u32 = a / 0x100_0000;
        let y: u32 = a / 0x1_0000 % 0x100;
        let z: u32 = a / 0x100 % 0x100;
        if x == 100 && 64 <= y && y <= 127 {
            return false;
        }
        if x == 169 && y == 254 && z == 127 {
            return false;
        }
        return ip::is_private_v4(a) || ip::is_link_local_v4(a);
    }
    if let Some(a) = ip::read_v6(s) {
        return a != 1 && (ip::is_link_local_v6(a) || ip::is_unique_local_v6(a));
    }
    false
}

/// The addresses among the prefixes at which the web interface may be
/// reached, each once, in order.
pub open spec fn reachable_addresses(cidrs: Seq<Seq<char>>) -> Seq<Seq<char>>
    decreases cidrs.len(),
{
    if cidrs.len() == 0 {
        Seq::empty()
    } else {
        let found = reachable_addresses(cidrs.drop_last());
        let a = before(cidrs.last(), '/');
        if reachable(a) && !found.contains(a) {
            found.push(a)
        } else {
            found
        }
    }
}

/// The addresses at which the web interface may be reached.
pub fn expose_ips(cidrs: &[String]) -> (r: Vec<String>)
    ensures
        texts(r@) == reachable_addresses(texts(cidrs@)),
{
    let mut out: Vec<String> = Vec::new();
    let mut i: usize = 0;
    let ghost t = texts(cidrs@);
    proof {
        assert(t.take(0) == Seq::<Seq<char>>::empty());
        assert(texts(out@) == Seq::<Seq<char>>::empty());
    }
    while i < cidrs.len()
        invariant
            t == texts(cidrs@),
            i <= cidrs@.len(),
            texts(out@) == reachable_addresses(t.take(i as int)),
        decreases cidrs@.len() - i,
    {
        proof {
            let next = t.take(i + 1);
            assert(next.drop_last() == t.take(i as int));
            assert(next.last() == cidrs@[i as int]@);
        }
        let a = text::head(cidrs[i].as_str(), '/');
        if expose_allowed(a.as_str()) && !text::holds_text(&out, a.as_str()) {
            text::add_text(&mut out, a);
        }
        i = i + 1;
    }
    proof {
        assert(t.take(i as int) == t);
    }
    out
}

/// Whether an address is private and not link-local.
pub open spec fn bootstrap_reachable(s: Seq<char>) -> bool {
    match parse(s) {
        Some(IpAddr::V4(a)) => private_v4(a),
        Some(IpAddr::V6(a)) => unique_local_v6(a),
        None => false,
    }
}

/// The addresses at which the web interface is reached before the appliance
/// has an owner: never a link-local one.
pub open spec fn bootstrap_addresses(cidrs: Seq<Seq<char>>) -> Seq<Seq<char>> {
    let all = reachable_addresses(cidrs);
    collect(
        all.len(),
        |i: int|
            if bootstrap_reachable(all[i]) {
                Some(all[i])
            } else {
                None
            },
    )
}

/// The addresses at which the web interface is reached before the appliance
/// has an owner.
pub fn bootstrap_expose_ips(cidrs: &[String]) -> (r: Vec<String>)
    ensures
        texts(r@) == bootstrap_addresses(texts(cidrs@)),
{
    let all = expose_ips(cidrs);
    let ghost t = texts(all@);
    let ghost f = |i: int|
        if bootstrap_reachable(t[i]) {
            Some(t[i])
        } else {
            None
        };
    let mut out: Vec<String> = Vec::new();
    let mut i: usize = 0;
    assert(texts(out@) == Seq::<Seq<char>>::empty());
    while i < all.len()
        invariant
            t == texts(all@),
            f == (|i: int|
                if bootstrap_reachable(t[i]) {
                    Some(t[i])
                } else {
                    None
                }),
            i <= all@.len(),
            texts(out@) == collect(i as nat, f),
        decreases all@.len() - i,
    {
        assert(t[i as int] == all@[i as int]@);
        let keep = match ip::read(all[i].as_str()) {
            Some(IpAddr::V4(a)) => ip::is_private_v4(a),
            Some(IpAddr::V6(a)) => ip::is_unique_local_v6(a),
            None => false,
        };
        if keep {
            text::add_text(&mut out, all[i].clone());
        }
        i = i + 1;
    }
    out
}

/// Whether waiting for an address can end: there is one at which the web
/// interface is reached before the appliance has an owner, or it was waited
/// long enough.
pub fn wait_expose_cidrs(cidrs: &[String], late: bool) -> (r: bool)
    ensures
        r == (bootstrap_addresses(texts(cidrs@)).len() > 0 || late),
{
    let found = bootstrap_expose_ips(cidrs);
    assert(texts(found@).len() == found@.len());
    found.len() > 0 || late
}

// ---------------------------------------------------------------------------
// Exposure of a Desired state
// ---------------------------------------------------------------------------

/// The interface that a name of the exposure stands for: the first of that
/// name that is no WAN.
pub open spec fn exposed_at(s: DesiredView) -> spec_fn(int) -> Option<(Seq<char>, Seq<Seq<char>>)> {
    |k: int|
        match first_iface(s.interfaces, exposable(s.ui_exposure[k])) {
            Some(i) => Some((s.interfaces[i].name, s.interfaces[i].addresses)),
            None => None,
        }
}

/// The interfaces on which a state exposes the web interface, with their
/// addresses.
pub open spec fn exposure_of(s: DesiredView) -> Seq<(Seq<char>, Seq<Seq<char>>)> {
    collect(s.ui_exposure.len(), exposed_at(s))
}

/// Names and addresses as the model has them.
pub open spec fn exposure_views(v: Seq<(String, Vec<String>)>) -> Seq<(Seq<char>, Seq<Seq<char>>)> {
    Seq::new(v.len(), |i: int| (v[i].0@, texts(v[i].1@)))
}

fn find_exposable(s: &DesiredState, name: &str) -> (r: Option<usize>)
    ensures
        match r {
            Some(k) => first_iface(s@.interfaces, exposable(name@)) == Some(k as int) && k
                < s.interfaces@.len(),
            None => first_iface(s@.interfaces, exposable(name@)) is None,
        },
{
    let ghost v = s@.interfaces;
    let mut k: usize = 0;
    while k < s.interfaces.len()
        invariant
            v == s@.interfaces,
            k <= s.interfaces@.len(),
            forall|j: int| 0 <= j < k ==> !exposable(name@)(#[trigger] v[j]),
        decreases s.interfaces@.len() - k,
    {
        assert(v[k as int] == s.interfaces@[k as int]@);
        if same(s.interfaces[k].name.as_str(), name) && !in_role(&s.interfaces[k], "wan") {
            proof {
                lemma_first_iface(v, exposable(name@), k as int);
            }
            return Some(k);
        }
        k = k + 1;
    }
    proof {
        lemma_first_iface(v, exposable(name@), k as int);
    }
    None
}

/// The interfaces on which a state exposes the web interface, with their
/// addresses.
pub fn ui_exposure(s: &DesiredState) -> (r: Vec<(String, Vec<String>)>)
    ensures
        exposure_views(r@) == exposure_of(s@),
{
    let ghost f = exposed_at(s@);
    let mut out: Vec<(String, Vec<String>)> = Vec::new();
    let mut k: usize = 0;
    assert(exposure_views(out@) == Seq::<(Seq<char>, Seq<Seq<char>>)>::empty());
    while k < s.ui_exposure.len()
        invariant
            f == exposed_at(s@),
            k <= s.ui_exposure@.len(),
            exposure_views(out@) == collect(k as nat, f),
        decreases s.ui_exposure@.len() - k,
    {
        assert(s@.ui_exposure[k as int] == s.ui_exposure@[k as int]@);
        match find_exposable(s, s.ui_exposure[k].as_str()) {
            Some(i) => {
                let iface = &s.interfaces[i];
                assert(s@.interfaces[i as int] == iface@);
                let ghost before = out@;
                out.push((iface.name.clone(), copy_texts(&iface.addresses)));
                assert(exposure_views(out@) == exposure_views(before).push(
                    (iface@.name, iface@.addresses),
                ));
            },
            None => {},
        }
        k = k + 1;
    }
    out
}

/// The web interface is exposed only on interfaces of the state that are
/// named in its exposure and are no WAN.
pub proof fn law_exposure_is_never_a_wan(s: DesiredView, e: int)
    requires
        0 <= e < exposure_of(s).len(),
    ensures
        exists|i: int|
            0 <= i < s.interfaces.len() && (#[trigger] s.interfaces[i]).name == exposure_of(s)[e].0
                && s.interfaces[i].addresses == exposure_of(s)[e].1 && !has_role(
                s.interfaces[i],
                "wan"@,
            ) && s.ui_exposure.contains(s.interfaces[i].name),
{
    lemma_exposed(s, s.ui_exposure.len(), e);
}

proof fn lemma_exposed(s: DesiredView, n: nat, e: int)
    requires
        n <= s.ui_exposure.len(),
        0 <= e < collect(n, exposed_at(s)).len(),
    ensures
        exists|i: int|
            0 <= i < s.interfaces.len() && (#[trigger] s.interfaces[i]).name == collect(
                n,
                exposed_at(s),
            )[e].0 && s.interfaces[i].addresses == collect(n, exposed_at(s))[e].1 && !has_role(
                s.interfaces[i],
                "wan"@,
            ) && s.ui_exposure.contains(s.interfaces[i].name),
    decreases n,
{
    if n > 0 {
        let prior = collect((n - 1) as nat, exposed_at(s));
        if e < prior.len() {
            lemma_exposed(s, (n - 1) as nat, e);
        } else {
            let name = s.ui_exposure[n - 1];
            lemma_found_iface(s.interfaces, exposable(name));
            let i = first_iface(s.interfaces, exposable(name))->0;
            assert(exposable(name)(s.interfaces[i]));
            assert(s.ui_exposure.contains(name));
        }
    }
}

/// Before the appliance has an owner, the web interface is never reached at a
/// link-local, a public or a loopback address.
pub proof fn law_bootstrap_exposure_is_private(cidrs: Seq<Seq<char>>, e: int)
    requires
        0 <= e < bootstrap_addresses(cidrs).len(),
    ensures
        bootstrap_reachable(bootstrap_addresses(cidrs)[e]),
        reachable(bootstrap_addresses(cidrs)[e]),
{
    let all = reachable_addresses(cidrs);
    let f = |i: int|
        if bootstrap_reachable(all[i]) {
            Some(all[i])
        } else {
            None
        };
    lemma_collected(all.len(), f, e);
    let k = choose|k: int| 0 <= k < all.len() && #[trigger] f(k) == Some(collect(all.len(), f)[e]);
    lemma_reachable_addresses(cidrs, k);
}

/// Every address found is one at which the web interface may be reached, and
/// no address is found twice.
pub proof fn lemma_reachable_addresses(cidrs: Seq<Seq<char>>, k: int)
    requires
        0 <= k < reachable_addresses(cidrs).len(),
    ensures
        reachable(reachable_addresses(cidrs)[k]),
        forall|j: int|
            0 <= j < k ==> reachable_addresses(cidrs)[j] != #[trigger] reachable_addresses(cidrs)[k],
    decreases cidrs.len(),
{
    let found = reachable_addresses(cidrs.drop_last());
    if k < found.len() {
        lemma_reachable_addresses(cidrs.drop_last(), k);
    }
}

/// Which IPv4 addresses the web interface may be reached at: just those in
/// 10.0.0.0/8, 172.16.0.0/12, 192.168.0.0/16 and 169.254.0.0/16, the last one
/// without 169.254.127.0/24.
pub proof fn law_private_v4_addresses_may_be_exposed(s: Seq<char>, a: u32)
    requires
        parse_v4(s) == Some(a),
    ensures
        reachable(s) <==> {
            ||| 0x0a00_0000 <= a <= 0x0aff_ffff
            ||| 0xac10_0000 <= a <= 0xac1f_ffff
            ||| 0xc0a8_0000 <= a <= 0xc0a8_ffff
            ||| 0xa9fe_0000 <= a <= 0xa9fe_ffff && !(0xa9fe_7f00 <= a <= 0xa9fe_7fff)
        },
        bootstrap_reachable(s) <==> {
            ||| 0x0a00_0000 <= a <= 0x0aff_ffff
            ||| 0xac10_0000 <= a <= 0xac1f_ffff
            ||| 0xc0a8_0000 <= a <= 0xc0a8_ffff
        },
{
    lemma_first_octets(a);
    lemma_second_octets(a);
    assert(parse(s) == Some(IpAddr::V4(a)));
}

/// The ranges that the leading byte of an address stands for.
proof fn lemma_first_octets(a: u32)
    ensures
        octet_of(a, 0) == 10 <==> 0x0a00_0000 <= a <= 0x0aff_ffff,
        octet_of(a, 0) == 172 <==> 0xac00_0000 <= a <= 0xacff_ffff,
        octet_of(a, 0) == 192 <==> 0xc000_0000 <= a <= 0xc0ff_ffff,
        octet_of(a, 0) == 169 <==> 0xa900_0000 <= a <= 0xa9ff_ffff,
        octet_of(a, 0) == 100 <==> 0x6400_0000 <= a <= 0x64ff_ffff,
        octet_of(a, 0) == 127 <==> 0x7f00_0000 <= a <= 0x7fff_ffff,
{
}

/// The ranges that the leading bytes of a private or link-local address stand
/// for.
proof fn lemma_second_octets(a: u32)
    ensures
        0xac00_0000 <= a <= 0xacff_ffff ==> (16 <= octet_of(a, 1) <= 31 <==> 0xac10_0000 <= a <= 0xac1f_ffff),
        0xc000_0000 <= a <= 0xc0ff_ffff ==> (octet_of(a, 1) == 168 <==> 0xc0a8_0000 <= a <= 0xc0a8_ffff),
        0xa900_0000 <= a <= 0xa9ff_ffff ==> (octet_of(a, 1) == 254 <==> 0xa9fe_0000 <= a <= 0xa9fe_ffff),
        0xa9fe_0000 <= a <= 0xa9fe_ffff ==> (octet_of(a, 2) == 127 <==> 0xa9fe_7f00 <= a <= 0xa9fe_7fff),
{
    assert(a / 0x1_0000 % 0x100 == a / 0x1_0000 - 0x100 * (a / 0x100_0000)) by (bit_vector);
    assert(a / 0x100 % 0x100 == a / 0x100 - 0x100 * (a / 0x1_0000)) by (bit_vector);
}

/// Which IPv6 addresses the web interface may be reached at: just those in
/// fe80::/10 and fc00::/7.
pub proof fn law_private_v6_addresses_may_be_exposed(s: Seq<char>, a: u128)
    requires
        parse_v4(s) is None,
        parse_v6(s) == Some(a),
    ensures
        reachable(s) <==> {
            ||| 0xfe80_0000_0000_0000_0000_0000_0000_0000 <= a <= 0xfebf_ffff_ffff_ffff_ffff_ffff_ffff_ffff
            ||| 0xfc00_0000_0000_0000_0000_0000_0000_0000 <= a <= 0xfdff_ffff_ffff_ffff_ffff_ffff_ffff_ffff
        },
        bootstrap_reachable(s) <==> 0xfc00_0000_0000_0000_0000_0000_0000_0000 <= a
            <= 0xfdff_ffff_ffff_ffff_ffff_ffff_ffff_ffff,
{
}

/// A text that is no address is never exposed.
pub proof fn law_only_addresses_are_exposed(s: Seq<char>)
    requires
        parse(s) is None,
    ensures
        !reachable(s),
        !bootstrap_reachable(s),
{
}

/// Every address that may be exposed is, and no other; each one once.
pub proof fn law_every_reachable_address_is_exposed(cidrs: Seq<Seq<char>>, a: Seq<char>)
    ensures
        reachable_addresses(cidrs).contains(a) <==> reachable(a) && exists|k: int|
            0 <= k < cidrs.len() && before(#[trigger] cidrs[k], '/') == a,
        reachable_addresses(cidrs).no_duplicates(),
    decreases cidrs.len(),
{
    if cidrs.len() > 0 {
        let rest = cidrs.drop_last();
        let found = reachable_addresses(rest);
        let last = before(cidrs.last(), '/');
        law_every_reachable_address_is_exposed(rest, a);
        let all = reachable_addresses(cidrs);
        if exists|k: int| 0 <= k < cidrs.len() && before(#[trigger] cidrs[k], '/') == a {
            let k = choose|k: int| 0 <= k < cidrs.len() && before(#[trigger] cidrs[k], '/') == a;
            if k < rest.len() {
                assert(before(rest[k], '/') == a);
            }
        }
        if found.contains(a) {
            let e = choose|e: int| 0 <= e < found.len() && found[e] == a;
            assert(all[e] == a);
            let k = choose|k: int| 0 <= k < rest.len() && before(#[trigger] rest[k], '/') == a;
            assert(before(cidrs[k], '/') == a);
        }
        if all != found && a == last {
            assert(all[found.len() as int] == a);
            assert(before(cidrs[cidrs.len() - 1], '/') == a);
        }
        if all.contains(a) && !found.contains(a) {
            let e = choose|e: int| 0 <= e < all.len() && all[e] == a;
            assert(e == found.len());
            assert(before(cidrs[cidrs.len() - 1], '/') == a);
        }
    }
}

/// Before the appliance has an owner, every private address of the NIC is
/// exposed, and no other.
pub proof fn law_every_private_address_is_exposed_at_first(cidrs: Seq<Seq<char>>, a: Seq<char>)
    ensures
        bootstrap_addresses(cidrs).contains(a) <==> bootstrap_reachable(a) && reachable(a) && exists|k: int|
            0 <= k < cidrs.len() && before(#[trigger] cidrs[k], '/') == a,
{
    let all = reachable_addresses(cidrs);
    let f = |i: int|
        if bootstrap_reachable(all[i]) {
            Some(all[i])
        } else {
            None
        };
    law_every_reachable_address_is_exposed(cidrs, a);
    assert(bootstrap_addresses(cidrs) == collect(all.len(), f));
    if bootstrap_addresses(cidrs).contains(a) {
        let e = choose|e: int| 0 <= e < bootstrap_addresses(cidrs).len() && bootstrap_addresses(cidrs)[e] == a;
        lemma_collected(all.len(), f, e);
        let k = choose|k: int| 0 <= k < all.len() && #[trigger] f(k) == Some(collect(all.len(), f)[e]);
        assert(all[k] == a);
    }
    if all.contains(a) && bootstrap_reachable(a) {
        let i = choose|i: int| 0 <= i < all.len() && all[i] == a;
        assert(f(i) == Some(a));
        text::lemma_collects(all.len(), f, i);
    }
}

/// Every name in the exposure of a state that an interface has which is no WAN
/// is exposed, with the addresses of the first such interface.
pub proof fn law_every_named_interface_is_exposed(s: DesiredView, k: int, i: int)
    requires
        0 <= k < s.ui_exposure.len(),
        0 <= i < s.interfaces.len(),
        s.interfaces[i].name == s.ui_exposure[k],
        s.interfaces[i].role != Some("wan"@),
        forall|j: int|
            0 <= j < i ==> (#[trigger] s.interfaces[j]).name != s.ui_exposure[k] || s.interfaces[j].role == Some(
                "wan"@,
            ),
    ensures
        exposure_of(s).contains((s.interfaces[i].name, s.interfaces[i].addresses)),
{
    let p = exposable(s.ui_exposure[k]);
    lemma_found_iface(s.interfaces, p);
    match first_iface(s.interfaces, p) {
        Some(j) => {
            assert(p(s.interfaces[j]));
            assert(p(s.interfaces[i]));
            if j < i {
                assert(s.interfaces[j].name == s.ui_exposure[k]);
            }
        },
        None => {
            assert(p(s.interfaces[i]));
        },
    }
    text::lemma_collects(s.ui_exposure.len(), exposed_at(s), k);
}

} // verus!
