//! Checks of single values of a configuration, and where a delegated prefix
//! puts the LAN.

use crate::ip;
use crate::ip::{
    law_written_address_reads_back, law_written_prefix_reads_back, network, parse, parse_cidr, parse_v4,
    same_prefix, text_v6, IpAddr,
};
use crate::text;
use crate::text::{
    decimal, digits, failure, first_some, is_alphanumeric, lemma_first_some, print, same, split_once, str_opt,
    texts, trim,
};
use vstd::arithmetic::power2::{lemma2_to64, lemma_pow2_adds, lemma_pow2_pos, pow2};
use vstd::prelude::*;

verus! {

/// The number of characters that the name of an interface has at most.
pub const MAX_INTERFACE_NAME: usize = 15;

/// The greatest VLAN ID.
pub const MAX_VLAN: u16 = 4094;

/// Whether a character may stand in the name of an interface.
pub open spec fn interface_char(c: char) -> bool {
    is_alphanumeric(c) || c == '_' || c == '-' || c == '.'
}

/// Whether `s` can name an interface.
pub open spec fn interface_name(s: Seq<char>) -> bool {
    &&& 1 <= s.len() <= MAX_INTERFACE_NAME
    &&& forall|i: int| 0 <= i < s.len() ==> interface_char(#[trigger] s[i])
}

/// What is wrong with the address at each place.
pub open spec fn address_error(addresses: Seq<Seq<char>>) -> spec_fn(int) -> Option<Seq<char>> {
    |i: int|
        if parse_cidr(addresses[i]) is None {
            Some("invalid interface address "@ + addresses[i])
        } else {
            None
        }
}

/// What is wrong with an interface, if anything: its name, its parent, its
/// VLAN ID, or the first of its addresses that is none.
pub open spec fn interface_error(
    name: Seq<char>,
    parent: Option<Seq<char>>,
    vlan: Option<u16>,
    addresses: Seq<Seq<char>>,
) -> Option<Seq<char>> {
    if !interface_name(name) {
        Some("invalid interface name "@ + name)
    } else if parent is Some && (!interface_name(parent->0) || parent->0 == name) {
        Some("invalid parent for interface "@ + name)
    } else if parent is Some && vlan is None {
        Some("interface "@ + name + " has parent without VLAN"@)
    } else if vlan is Some && !(1 <= vlan->0 <= MAX_VLAN) {
        Some("VLAN ID "@ + decimal(vlan->0 as nat) + " is outside 1-4094"@)
    } else if vlan is Some && parent is None && !name.contains('.') {
        Some("VLAN interface "@ + name + " needs a parent"@)
    } else {
        first_some(addresses.len(), address_error(addresses))
    }
}

/// Whether `s` can name an interface.
pub fn is_interface_name(s: &str) -> (r: bool)
    ensures
        r == interface_name(s@),
{
    let v = text::chars_of(s);
    if v.len() == 0 || v.len() > MAX_INTERFACE_NAME {
        return false;
    }
    let mut i: usize = 0;
    while i < v.len()
        invariant
            v@ == s@,
            i <= v@.len(),
            forall|j: int| 0 <= j < i ==> interface_char(#[trigger] s@[j]),
        decreases v@.len() - i,
    {
        let c = v[i];
        assert(c == s@[i as int]);
        if !(('0' <= c && c <= '9') || ('a' <= c && c <= 'z') || ('A' <= c && c <= 'Z') || c == '_' || c
            == '-' || c == '.') {
            return false;
        }
        i = i + 1;
    }
    true
}

fn check_addresses(addresses: &[String]) -> (r: Result<(), String>)
    ensures
        failure(r) == first_some(addresses@.len(), address_error(texts(addresses@))),
{
    let ghost f = address_error(texts(addresses@));
    let mut i: usize = 0;
    while i < addresses.len()
        invariant
            i <= addresses@.len(),
            f == address_error(texts(addresses@)),
            first_some(i as nat, f) is None,
        decreases addresses@.len() - i,
    {
        assert(texts(addresses@)[i as int] == addresses@[i as int]@);
        if ip::cidr(addresses[i].as_str()).is_none() {
            proof {
                lemma_first_some((i + 1) as nat, addresses@.len(), f);
            }
            return Err("invalid interface address ".to_owned().concat(addresses[i].as_str()));
        }
        i = i + 1;
    }
    Ok(())
}

/// Checks one interface.
pub fn interface(name: &str, parent: Option<&str>, vlan: Option<u16>, addresses: &[String]) -> (r: Result<
    (),
    String,
>)
    ensures
        failure(r) == interface_error(name@, str_opt(parent), vlan, texts(addresses@)),
{
    if !is_interface_name(name) {
        return Err("invalid interface name ".to_owned().concat(name));
    }
    if let Some(p) = parent {
        if !is_interface_name(p) || same(p, name) {
            return Err("invalid parent for interface ".to_owned().concat(name));
        }
        if vlan.is_none() {
            return Err("interface ".to_owned().concat(name).concat(" has parent without VLAN"));
        }
    }
    if let Some(vid) = vlan {
        if vid < 1 || vid > MAX_VLAN {
            return Err(
                "VLAN ID ".to_owned().concat(print(vid as u64).as_str()).concat(" is outside 1-4094"),
            );
        }
        if parent.is_none() && !text::has_char(name, '.') {
            return Err("VLAN interface ".to_owned().concat(name).concat(" needs a parent"));
        }
    }
    check_addresses(addresses)
}

// ---------------------------------------------------------------------------
// Addressing of the LAN
// ---------------------------------------------------------------------------

/// A value that is there and not empty.
pub open spec fn given(s: Option<Seq<char>>) -> Option<Seq<char>> {
    match s {
        Some(x) => if x.len() > 0 {
            Some(x)
        } else {
            None
        },
        None => None,
    }
}

/// The LAN prefix, where it is an IPv4 prefix with usable hosts.
pub open spec fn lan_network(s: Seq<char>) -> Option<(u32, nat)> {
    match parse_cidr(s) {
        Some((IpAddr::V4(a), len)) => if 1 <= len <= 30 {
            Some((a, len))
        } else {
            None
        },
        _ => None,
    }
}

/// The texts of the two ends of a pool; a pool without a dash has one.
pub open spec fn pool_ends(s: Seq<char>) -> (Seq<char>, Seq<char>) {
    match split_once(s, '-') {
        Some(ends) => ends,
        None => (s, s),
    }
}

/// What is wrong with a pool of addresses, if anything. Where there is no LAN
/// prefix, the pool has to lie within the 24-bit prefix of its first address.
pub open spec fn pool_error(lan: Option<(u32, nat)>, pool: Seq<char>) -> Option<Seq<char>> {
    let (from, to) = pool_ends(pool);
    match (parse_v4(trim(from)), parse_v4(trim(to))) {
        (None, _) => Some("invalid dhcp_pool start"@),
        (_, None) => Some("invalid dhcp_pool end"@),
        (Some(first), Some(last)) => {
            let (base, len) = match lan {
                Some(l) => l,
                None => (first, 24nat),
            };
            if first > last {
                Some("dhcp_pool start exceeds end"@)
            } else if !same_prefix(first as nat, base as nat, len, 32) || !same_prefix(
                last as nat,
                base as nat,
                len,
                32,
            ) {
                Some("dhcp_pool is outside lan_prefix"@)
            } else {
                None
            }
        },
    }
}

/// What is wrong with the addressing of the LAN, if anything.
pub open spec fn addressing_error(
    lan_prefix: Option<Seq<char>>,
    dhcp_pool: Option<Seq<char>>,
    wan_pd: Option<Seq<char>>,
) -> Option<Seq<char>> {
    let lan = match given(lan_prefix) {
        Some(s) => lan_network(s),
        None => None,
    };
    if given(lan_prefix) is Some && lan is None {
        Some("invalid lan_prefix IPv4 CIDR"@)
    } else if given(dhcp_pool) is Some && pool_error(lan, given(dhcp_pool)->0) is Some {
        pool_error(lan, given(dhcp_pool)->0)
    } else if given(wan_pd) is Some && delegated_subnet(given(wan_pd)->0) is None {
        Some("invalid wan_pd IPv6 prefix"@)
    } else {
        None
    }
}

fn nonempty(s: Option<&str>) -> (r: Option<&str>)
    ensures
        str_opt(r) == given(str_opt(s)),
{
    match s {
        Some(x) => if x.is_empty() {
            None
        } else {
            Some(x)
        },
        None => None,
    }
}

fn check_pool(lan: Option<(u32, u8)>, pool: &str) -> (r: Result<(), String>)
    requires
        lan matches Some((_, n)) ==> n <= 32,
    ensures
        failure(r) == pool_error(
            match lan {
                Some((a, n)) => Some((a, n as nat)),
                None => None,
            },
            pool@,
        ),
{
    let (from, to) = match text::cut(pool, '-') {
        Some(ends) => ends,
        None => (pool.to_owned(), pool.to_owned()),
    };
    let first = match ip::read_v4(text::trimmed(from.as_str()).as_str()) {
        Some(a) => a,
        None => return Err("invalid dhcp_pool start".to_owned()),
    };
    let last = match ip::read_v4(text::trimmed(to.as_str()).as_str()) {
        Some(a) => a,
        None => return Err("invalid dhcp_pool end".to_owned()),
    };
    if first > last {
        return Err("dhcp_pool start exceeds end".to_owned());
    }
    let (base, len): (u32, u8) = match lan {
        Some(l) => l,
        None => (first, 24),
    };
    if !ip::agree(first as u128, base as u128, len, 32) || !ip::agree(
        last as u128,
        base as u128,
        len,
        32,
    ) {
        return Err("dhcp_pool is outside lan_prefix".to_owned());
    }
    Ok(())
}

/// Checks the addressing of the LAN.
pub fn addressing(lan_prefix: Option<&str>, dhcp_pool: Option<&str>, wan_pd: Option<&str>) -> (r: Result<
    (),
    String,
>)
    ensures
        failure(r) == addressing_error(str_opt(lan_prefix), str_opt(dhcp_pool), str_opt(wan_pd)),
{
    let lan: Option<(u32, u8)> = match nonempty(lan_prefix) {
        Some(s) => match ip::cidr(s) {
            Some((IpAddr::V4(a), len)) => {
                if len < 1 || len > 30 {
                    return Err("invalid lan_prefix IPv4 CIDR".to_owned());
                }
                Some((a, len))
            },
            _ => {
                return Err("invalid lan_prefix IPv4 CIDR".to_owned());
            },
        },
        None => None,
    };
    if let Some(pool) = nonempty(dhcp_pool) {
        match check_pool(lan, pool) {
            Ok(_) => {},
            Err(e) => return Err(e),
        }
    }
    if let Some(pd) = nonempty(wan_pd) {
        if delegated_lan(pd).is_none() {
            return Err("invalid wan_pd IPv6 prefix".to_owned());
        }
    }
    Ok(())
}

// ---------------------------------------------------------------------------
// Delegated prefixes
// ---------------------------------------------------------------------------

/// Where a delegated IPv6 prefix puts the LAN.
#[derive(Debug)]
pub struct DelegatedLan {
    pub address_cidr: String,
    pub subnet_cidr: String,
    pub pool_start: String,
    pub pool_end: String,
}

/// The first 64-bit subnet of a delegated IPv6 prefix of at most 64 bits.
pub open spec fn delegated_subnet(prefix: Seq<char>) -> Option<nat> {
    match parse_cidr(prefix) {
        Some((IpAddr::V6(a), len)) => if len <= 64 {
            Some(network(a as nat, len, 128))
        } else {
            None
        },
        _ => None,
    }
}

/// The four texts of the LAN in that subnet: its first address, the subnet
/// itself, and the ends of the pool.
pub open spec fn delegated_texts(subnet: nat) -> (Seq<char>, Seq<char>, Seq<char>, Seq<char>) {
    (
        text_v6((subnet + 1) as u128) + "/64"@,
        text_v6(subnet as u128) + "/64"@,
        text_v6((subnet + 0x100) as u128),
        text_v6((subnet + 0x1ff) as u128),
    )
}

impl View for DelegatedLan {
    type V = (Seq<char>, Seq<char>, Seq<char>, Seq<char>);

    open spec fn view(&self) -> (Seq<char>, Seq<char>, Seq<char>, Seq<char>) {
        (self.address_cidr@, self.subnet_cidr@, self.pool_start@, self.pool_end@)
    }
}

/// A prefix of at most 64 bits ends in 64 zero bits.
proof fn lemma_network_64(a: nat, len: nat)
    requires
        len <= 64,
        a < 0x1_0000_0000_0000_0000_0000_0000_0000_0000,
    ensures
        network(a, len, 128) % 0x1_0000_0000_0000_0000 == 0,
        network(a, len, 128) <= 0xffff_ffff_ffff_ffff_0000_0000_0000_0000,
        network(a, len, 128) <= a,
{
    lemma2_to64();
    lemma_pow2_adds(64, (64 - len) as nat);
    let d = pow2((128 - len) as nat);
    let e = pow2((64 - len) as nat);
    lemma_pow2_pos((64 - len) as nat);
    lemma_pow2_pos((128 - len) as nat);
    let q = a / d;
    assert(d == 0x1_0000_0000_0000_0000 * e);
    assert(q * d <= a) by (nonlinear_arith)
        requires
            q == a / d,
            d > 0,
    ;
    assert(q * d == (q * e) * 0x1_0000_0000_0000_0000) by (nonlinear_arith)
        requires
            d == 0x1_0000_0000_0000_0000 * e,
    ;
}

/// Places the LAN in the first /64 of a delegated IPv6 prefix, whatever
/// notation the prefix is written in.
pub fn delegated_lan(prefix: &str) -> (r: Option<DelegatedLan>)
    ensures
        match r {
            Some(lan) => delegated_subnet(prefix@) is Some && lan@ == delegated_texts(
                delegated_subnet(prefix@)->0,
            ),
            None => delegated_subnet(prefix@) is None,
        },
{
    match ip::cidr(prefix) {
        Some((IpAddr::V6(a), len)) => {
            if len > 64 {
                return None;
            }
            let subnet = ip::network_of(a, len);
            proof {
                lemma_network_64(a as nat, len as nat);
            }
            Some(
                DelegatedLan {
                    address_cidr: ip::write_v6(subnet + 1).concat("/64"),
                    subnet_cidr: ip::write_v6(subnet).concat("/64"),
                    pool_start: ip::write_v6(subnet + 0x100),
                    pool_end: ip::write_v6(subnet + 0x1ff),
                },
            )
        },
        _ => None,
    }
}

/// Two notations of one prefix put the LAN at the same place.
pub proof fn law_delegated_lan_ignores_notation(a: Seq<char>, b: Seq<char>)
    requires
        parse_cidr(a) == parse_cidr(b),
    ensures
        delegated_subnet(a) == delegated_subnet(b),
        delegated_subnet(a) is Some ==> delegated_texts(delegated_subnet(a)->0) == delegated_texts(
            delegated_subnet(b)->0,
        ),
{
}

/// The LAN lies in the delegated prefix, and its address and both ends of its
/// pool lie in one 64-bit subnet.
pub proof fn law_delegated_lan_lies_in_the_prefix(prefix: Seq<char>)
    requires
        delegated_subnet(prefix) is Some,
    ensures
        ({
            let (ip, len) = parse_cidr(prefix)->0;
            let s = delegated_subnet(prefix)->0;
            &&& same_prefix(s, ip.number(), len, 128)
            &&& same_prefix(s + 1, s, 64, 128)
            &&& same_prefix(s + 0x100, s, 64, 128)
            &&& same_prefix(s + 0x1ff, s, 64, 128)
        }),
{
    let (ip, len) = parse_cidr(prefix)->0;
    let s = delegated_subnet(prefix)->0;
    let d = pow2((128 - len) as nat);
    lemma_network_64(ip.number(), len);
    lemma_pow2_pos((128 - len) as nat);
    lemma2_to64();
    let q = ip.number() / d;
    assert(q * d / d == q) by (nonlinear_arith)
        requires
            d > 0,
    ;
    let e = pow2(64);
    assert(e == 0x1_0000_0000_0000_0000);
    assert((s + 1) / 0x1_0000_0000_0000_0000 == s / 0x1_0000_0000_0000_0000);
    assert((s + 0x100) / 0x1_0000_0000_0000_0000 == s / 0x1_0000_0000_0000_0000);
    assert((s + 0x1ff) / 0x1_0000_0000_0000_0000 == s / 0x1_0000_0000_0000_0000);
}

/// The address and the subnet of the LAN, and both ends of its pool, are read
/// as they are written.
#[verifier::rlimit(30)]
pub proof fn law_delegated_lan_reads_back(prefix: Seq<char>)
    requires
        delegated_subnet(prefix) is Some,
    ensures
        ({
            let s = delegated_subnet(prefix)->0;
            let (address, subnet, from, to) = delegated_texts(s);
            &&& parse_cidr(address) == Some((IpAddr::V6((s + 1) as u128), 64nat))
            &&& parse_cidr(subnet) == Some((IpAddr::V6(s as u128), 64nat))
            &&& parse(from) == Some(IpAddr::V6((s + 0x100) as u128))
            &&& parse(to) == Some(IpAddr::V6((s + 0x1ff) as u128))
        }),
{
    let s = delegated_subnet(prefix)->0;
    reveal_strlit("/");
    reveal_strlit("/64");
    assert("/64"@ == "/"@ + decimal(64)) by {
        reveal_with_fuel(digits, 2);
        assert(decimal(64) == seq!['6', '4']);
    }
    assert(text_v6((s + 1) as u128) + "/64"@ == text_v6((s + 1) as u128) + "/"@ + decimal(64));
    assert(text_v6(s as u128) + "/64"@ == text_v6(s as u128) + "/"@ + decimal(64));
    law_written_prefix_reads_back(IpAddr::V6((s + 1) as u128), 64);
    law_written_prefix_reads_back(IpAddr::V6(s as u128), 64);
    law_written_address_reads_back(IpAddr::V6((s + 0x100) as u128));
    law_written_address_reads_back(IpAddr::V6((s + 0x1ff) as u128));
}

/// What an interface has to be: its name and that of its parent have one to
/// fifteen letters, digits, underscores, dashes and dots; it is no parent of its
/// own; a parent comes with a VLAN ID from 1 to 4094, and an ID with a parent or
/// a dotted name; and every address is one with the length of its prefix.
pub proof fn law_interfaces(name: Seq<char>, parent: Option<Seq<char>>, vlan: Option<u16>, addresses: Seq<Seq<char>>)
    ensures
        interface_error(name, parent, vlan, addresses) is None <==> {
            &&& plain_name(name)
            &&& parent is Some ==> plain_name(parent->0) && parent->0 != name && vlan is Some
            &&& vlan is Some ==> 1 <= vlan->0 <= 4094 && (parent is Some || name.contains('.'))
            &&& forall|k: int| 0 <= k < addresses.len() ==> parse_cidr(#[trigger] addresses[k]) is Some
        },
{
    lemma_plain_name(name);
    if parent is Some {
        lemma_plain_name(parent->0);
    }
    let f = address_error(addresses);
    text::lemma_first_some_none(addresses.len(), f);
    if forall|k: int| 0 <= k < addresses.len() ==> parse_cidr(#[trigger] addresses[k]) is Some {
        assert forall|k: int| 0 <= k < addresses.len() implies #[trigger] f(k) is None by {
            assert(parse_cidr(addresses[k]) is Some);
        }
    }
    if first_some(addresses.len(), f) is None {
        assert forall|k: int| 0 <= k < addresses.len() implies parse_cidr(#[trigger] addresses[k]) is Some by {
            assert(f(k) is None);
        }
    }
}

/// One to fifteen letters, digits, underscores, dashes and dots.
pub open spec fn plain_name(s: Seq<char>) -> bool {
    1 <= s.len() <= 15 && forall|i: int|
        0 <= i < s.len() ==> {
            let c = #[trigger] s[i];
            ('a' <= c && c <= 'z') || ('A' <= c && c <= 'Z') || ('0' <= c && c <= '9') || c == '_' || c == '-' || c
                == '.'
        }
}

proof fn lemma_plain_name(s: Seq<char>)
    ensures
        interface_name(s) <==> plain_name(s),
{
    if interface_name(s) {
        assert forall|i: int| 0 <= i < s.len() implies {
            let c = #[trigger] s[i];
            ('a' <= c && c <= 'z') || ('A' <= c && c <= 'Z') || ('0' <= c && c <= '9') || c == '_' || c == '-' || c
                == '.'
        } by {
            assert(interface_char(s[i]));
        }
    }
}

/// What the addressing of a LAN has to be, where each part is optional and an
/// empty one counts as none: the prefix is an IPv4 prefix of 1 to 30 bits; the
/// delegated prefix is an IPv6 prefix of at most 64 bits; and the pool goes from
/// one IPv4 address up to another, both within the LAN prefix or, without one,
/// within the 24 bits of the first.
pub proof fn law_addressing(lan_prefix: Option<Seq<char>>, dhcp_pool: Option<Seq<char>>, wan_pd: Option<Seq<char>>)
    ensures
        addressing_error(lan_prefix, dhcp_pool, wan_pd) is None <==> {
            let has_lan = lan_prefix is Some && (lan_prefix->0).len() > 0;
            let has_pool = dhcp_pool is Some && (dhcp_pool->0).len() > 0;
            let has_pd = wan_pd is Some && (wan_pd->0).len() > 0;
            &&& has_lan ==> (parse_cidr(lan_prefix->0) matches Some((ip, len)) && ip is V4 && 1 <= len <= 30)
            &&& has_pd ==> (parse_cidr(wan_pd->0) matches Some((ip, len)) && ip is V6 && len <= 64)
            &&& has_pool ==> {
                let pool = dhcp_pool->0;
                let (from, to) = if pool.contains('-') {
                    split_once(pool, '-')->0
                } else {
                    (pool, pool)
                };
                &&& parse_v4(trim(from)) is Some && parse_v4(trim(to)) is Some
                &&& {
                    let (first, last) = (parse_v4(trim(from))->0, parse_v4(trim(to))->0);
                    let (base, len) = if has_lan {
                        ((parse_cidr(lan_prefix->0)->0).0->V4_0, (parse_cidr(lan_prefix->0)->0).1)
                    } else {
                        (first, 24nat)
                    };
                    &&& first <= last
                    &&& same_prefix(first as nat, base as nat, len, 32)
                    &&& same_prefix(last as nat, base as nat, len, 32)
                }
            }
        },
{
}

/// A delegated prefix of at most 64 bits always gives a LAN: the subnet is the
/// first one in it, the address its first, and the pool 256 addresses behind
/// that.
pub proof fn law_delegated_prefix_gives_a_lan(prefix: Seq<char>, a: u128, len: nat)
    requires
        parse_cidr(prefix) == Some((IpAddr::V6(a), len)),
    ensures
        delegated_subnet(prefix) is Some <==> len <= 64,
        len <= 64 ==> delegated_subnet(prefix)->0 == network(a as nat, len, 128),
        len <= 64 ==> delegated_texts(delegated_subnet(prefix)->0) == (
            text_v6((network(a as nat, len, 128) + 1) as u128) + "/64"@,
            text_v6(network(a as nat, len, 128) as u128) + "/64"@,
            text_v6((network(a as nat, len, 128) + 256) as u128),
            text_v6((network(a as nat, len, 128) + 511) as u128),
        ),
{
}

} // verus!
