//! The LAN: the address that the appliance has on it, the services that it
//! offers there, and how those services report back.

use crate::bootstrap_values;
use crate::bootstrap_values::{delegated_subnet, delegated_texts};
use crate::desired::{iface_views, DesiredState, DesiredView, IfaceView, WgView};
use crate::policy;
use crate::policy::{first_host, lan_place, pool_prefix};
use crate::text;
use crate::text::{
    concat, failure, lemma_concat_has, lemma_split_once, lines_text, same, split, split_once, starts_with, text_opt, texts, trim,
    write_lines,
};
use vstd::prelude::*;

verus! {

// ---------------------------------------------------------------------------
// The address on the LAN
// ---------------------------------------------------------------------------

/// The prefix of the LAN: the one that the state names, or that of its pool.
pub open spec fn lan_prefix_of(s: DesiredView) -> Option<Seq<char>> {
    match s.lan_prefix {
        Some(p) => Some(p),
        None => match s.dhcp_pool {
            Some(pool) => pool_prefix(pool),
            None => None,
        },
    }
}

/// What stands behind the first slash, up to the next, or 24 bits.
pub open spec fn prefix_length(prefix: Seq<char>) -> Seq<char> {
    if split(prefix, '/').len() > 1 {
        split(prefix, '/')[1]
    } else {
        "24"@
    }
}

/// The address with which the appliance stands on a LAN of that prefix.
pub open spec fn host_cidr(prefix: Seq<char>) -> Option<Seq<char>> {
    match first_host(prefix) {
        Some(host) => Some(host + "/"@ + prefix_length(prefix)),
        None => None,
    }
}

/// Whether one of the addresses has that host part.
pub open spec fn has_host(addresses: Seq<Seq<char>>, host: Seq<char>) -> bool {
    exists|k: int| 0 <= k < addresses.len() && starts_with(#[trigger] addresses[k], host + "/"@)
}

/// The interface with one more address.
pub open spec fn with_address(i: IfaceView, cidr: Seq<char>) -> IfaceView {
    IfaceView { addresses: i.addresses.push(cidr), ..i }
}

/// The state whose LAN interface has the address that the LAN prefix gives
/// it.
pub open spec fn with_lan_address(s: DesiredView) -> DesiredView {
    match (lan_prefix_of(s), lan_place(s)) {
        (Some(prefix), Some(k)) => match host_cidr(prefix) {
            Some(cidr) => if has_host(s.interfaces[k].addresses, first_host(prefix)->0) {
                s
            } else {
                DesiredView {
                    interfaces: s.interfaces.update(k, with_address(s.interfaces[k], cidr)),
                    ..s
                }
            },
            None => s,
        },
        _ => s,
    }
}

/// The prefix of the LAN.
pub fn service_prefix(s: &DesiredState) -> (r: Option<String>)
    ensures
        text_opt(r) == lan_prefix_of(s@),
{
    match &s.lan_prefix {
        Some(p) => Some(p.clone()),
        None => match &s.dhcp_pool {
            Some(pool) => policy::prefix_from_pool(pool.as_str()),
            None => None,
        },
    }
}

fn length_of(prefix: &str) -> (r: String)
    ensures
        r@ == prefix_length(prefix@),
{
    let p = text::parts(prefix, '/');
    if p.len() > 1 {
        assert(split(prefix@, '/')[1] == texts(p@)[1]);
        p[1].clone()
    } else {
        "24".to_owned()
    }
}

/// The address with which the appliance stands on a LAN of that prefix.
pub fn lan_host_cidr(prefix: &str) -> (r: Option<String>)
    ensures
        text_opt(r) == host_cidr(prefix@),
{
    match policy::first_v4_host(prefix) {
        Some(host) => Some(host.concat("/").concat(length_of(prefix).as_str())),
        None => None,
    }
}

fn any_host(addresses: &Vec<String>, host: &str) -> (r: bool)
    ensures
        r == has_host(texts(addresses@), host@),
{
    let start = host.to_owned().concat("/");
    let ghost t = texts(addresses@);
    let mut k: usize = 0;
    while k < addresses.len()
        invariant
            t == texts(addresses@),
            start@ == host@ + "/"@,
            k <= addresses@.len(),
            forall|j: int| 0 <= j < k ==> !starts_with(#[trigger] t[j], host@ + "/"@),
        decreases addresses@.len() - k,
    {
        assert(t[k as int] == addresses@[k as int]@);
        if text::begins(addresses[k].as_str(), start.as_str()) {
            return true;
        }
        k = k + 1;
    }
    false
}

/// Gives the LAN interface the address that the LAN prefix gives it.
pub fn merge_lan_prefix_addr(s: &mut DesiredState)
    ensures
        final(s)@ == with_lan_address(old(s)@),
{
    let ghost was = s@;
    let prefix = match service_prefix(s) {
        Some(p) => p,
        None => return ,
    };
    let host = match policy::first_v4_host(prefix.as_str()) {
        Some(h) => h,
        None => return ,
    };
    let cidr = host.clone().concat("/").concat(length_of(prefix.as_str()).as_str());
    let k = match policy::lan_index(s) {
        Some(k) => k,
        None => return ,
    };
    assert(was.interfaces[k as int] == s.interfaces@[k as int]@);
    if any_host(&s.interfaces[k].addresses, host.as_str()) {
        return ;
    }
    let mut iface = s.interfaces[k].clone();
    let ghost old_addresses = iface.addresses@;
    iface.addresses.push(cidr);
    proof {
        assert(texts(iface.addresses@) == texts(old_addresses).push(cidr@));
        assert(iface@ == with_address(was.interfaces[k as int], cidr@));
    }
    let ghost old_ifaces = s.interfaces@;
    s.interfaces.set(k, iface);
    proof {
        assert(iface_views(s.interfaces@) == iface_views(old_ifaces).update(k as int, iface@));
    }
}

/// Names paired with each of their addresses.
pub open spec fn paired(name: Seq<char>, addresses: Seq<Seq<char>>) -> Seq<(Seq<char>, Seq<char>)> {
    Seq::new(addresses.len(), |k: int| (name, addresses[k]))
}

pub open spec fn iface_pairs(v: Seq<IfaceView>) -> spec_fn(int) -> Seq<(Seq<char>, Seq<char>)> {
    |i: int| paired(v[i].name, v[i].addresses)
}

pub open spec fn wireguard_pairs(v: Seq<WgView>) -> spec_fn(int) -> Seq<(Seq<char>, Seq<char>)> {
    |i: int| paired(v[i].name, v[i].addresses)
}

/// The address that a delegated prefix gives the LAN interface.
pub open spec fn delegated_pair(s: DesiredView) -> Seq<(Seq<char>, Seq<char>)> {
    match (lan_place(s), s.wan_pd) {
        (Some(k), Some(pd)) => match delegated_subnet(pd) {
            Some(subnet) => seq![(s.interfaces[k].name, delegated_texts(subnet).0)],
            None => Seq::empty(),
        },
        _ => Seq::empty(),
    }
}

/// Every address that a state configures, with the device that it is on.
pub open spec fn configured_addresses(s: DesiredView) -> Seq<(Seq<char>, Seq<char>)> {
    concat(s.interfaces.len(), iface_pairs(s.interfaces)) + concat(
        s.wireguard.len(),
        wireguard_pairs(s.wireguard),
    ) + delegated_pair(s)
}

/// Pairs as the model has them.
pub open spec fn pair_views(v: Seq<(String, String)>) -> Seq<(Seq<char>, Seq<char>)> {
    Seq::new(v.len(), |i: int| (v[i].0@, v[i].1@))
}

fn push_pairs(out: &mut Vec<(String, String)>, name: &str, addresses: &Vec<String>)
    ensures
        pair_views(final(out)@) == pair_views(old(out)@) + paired(name@, texts(addresses@)),
{
    let ghost base = pair_views(out@);
    let ghost all = paired(name@, texts(addresses@));
    let mut k: usize = 0;
    assert(base + all.take(0) == base);
    while k < addresses.len()
        invariant
            all == paired(name@, texts(addresses@)),
            k <= addresses@.len(),
            pair_views(out@) == base + all.take(k as int),
        decreases addresses@.len() - k,
    {
        let ghost before = out@;
        out.push((name.to_owned(), addresses[k].clone()));
        assert(pair_views(out@) == pair_views(before).push((name@, addresses@[k as int]@)));
        assert(all.take(k + 1) == all.take(k as int).push(all[k as int]));
        assert(pair_views(out@) == base + all.take(k + 1));
        k = k + 1;
    }
    assert(all.take(k as int) == all);
}

/// Every address that a state configures, with the device that it is on.
pub fn desired_addresses(s: &DesiredState) -> (r: Vec<(String, String)>)
    ensures
        pair_views(r@) == configured_addresses(s@),
{
    let mut out: Vec<(String, String)> = Vec::new();
    let ghost f = iface_pairs(s@.interfaces);
    let mut i: usize = 0;
    assert(pair_views(out@) == Seq::<(Seq<char>, Seq<char>)>::empty());
    while i < s.interfaces.len()
        invariant
            f == iface_pairs(s@.interfaces),
            i <= s.interfaces@.len(),
            pair_views(out@) == concat(i as nat, f),
        decreases s.interfaces@.len() - i,
    {
        assert(s@.interfaces[i as int] == s.interfaces@[i as int]@);
        push_pairs(&mut out, s.interfaces[i].name.as_str(), &s.interfaces[i].addresses);
        i = i + 1;
    }
    let ghost base = pair_views(out@);
    let ghost g = wireguard_pairs(s@.wireguard);
    let mut i: usize = 0;
    assert(base + concat(0, g) == base);
    while i < s.wireguard.len()
        invariant
            g == wireguard_pairs(s@.wireguard),
            i <= s.wireguard@.len(),
            pair_views(out@) == base + concat(i as nat, g),
        decreases s.wireguard@.len() - i,
    {
        assert(s@.wireguard[i as int] == s.wireguard@[i as int]@);
        push_pairs(&mut out, s.wireguard[i].name.as_str(), &s.wireguard[i].addresses);
        assert(pair_views(out@) == base + (concat(i as nat, g) + g(i as int)));
        i = i + 1;
    }
    let ghost base = pair_views(out@);
    match (policy::lan_l2(s), &s.wan_pd) {
        (Some(lan), Some(pd)) => {
            if let Some(cidr) = pd_lan_addr(pd.as_str()) {
                out.push((lan.name.clone(), cidr));
            }
        },
        _ => {},
    }
    assert(pair_views(out@) == base + delegated_pair(s@));
    out
}

/// The address that a delegated prefix gives the LAN interface.
pub fn pd_lan_addr(pd: &str) -> (r: Option<String>)
    ensures
        text_opt(r) == match delegated_subnet(pd@) {
            Some(subnet) => Some(delegated_texts(subnet).0),
            None => None,
        },
{
    match bootstrap_values::delegated_lan(pd) {
        Some(lan) => Some(lan.address_cidr),
        None => None,
    }
}

/// The subnet that a delegated prefix gives the LAN.
pub fn pd_subnet64(pd: &str) -> (r: Option<String>)
    ensures
        text_opt(r) == match delegated_subnet(pd@) {
            Some(subnet) => Some(delegated_texts(subnet).1),
            None => None,
        },
{
    match bootstrap_values::delegated_lan(pd) {
        Some(lan) => Some(lan.subnet_cidr),
        None => None,
    }
}

/// The ends of the pool that a delegated prefix gives the LAN.
pub fn pd_pool(pd: &str) -> (r: Option<(String, String)>)
    ensures
        match r {
            Some((a, b)) => delegated_subnet(pd@) is Some && (a@, b@) == (
                delegated_texts(delegated_subnet(pd@)->0).2,
                delegated_texts(delegated_subnet(pd@)->0).3,
            ),
            None => delegated_subnet(pd@) is None,
        },
{
    match bootstrap_values::delegated_lan(pd) {
        Some(lan) => Some((lan.pool_start, lan.pool_end)),
        None => None,
    }
}

/// A second merge changes nothing: the address is there already.
pub proof fn law_lan_address_is_given_once(s: DesiredView)
    ensures
        with_lan_address(with_lan_address(s)) == with_lan_address(s),
{
    let t = with_lan_address(s);
    match (lan_prefix_of(s), lan_place(s)) {
        (Some(prefix), Some(k)) => {
            policy::lemma_found_iface(s.interfaces, policy::in_lan());
            if host_cidr(prefix) is Some && !has_host(s.interfaces[k].addresses, first_host(prefix)->0) {
                let host = first_host(prefix)->0;
                let cidr = host_cidr(prefix)->0;
                assert forall|j: int| 0 <= j < k implies !policy::in_lan()(#[trigger] t.interfaces[j]) by {
                    assert(t.interfaces[j] == s.interfaces[j]);
                    assert(!policy::in_lan()(s.interfaces[j]));
                }
                assert(policy::in_lan()(s.interfaces[k]));
                policy::lemma_first_iface(t.interfaces, policy::in_lan(), k);
                let a = t.interfaces[k].addresses;
                assert(a[a.len() - 1] == cidr);
                assert(cidr.take((host + "/"@).len() as int) == host + "/"@);
                assert(starts_with(a[a.len() - 1], host + "/"@));
                assert(has_host(a, host));
            }
        },
        _ => {},
    }
}

// ---------------------------------------------------------------------------
// The services
// ---------------------------------------------------------------------------

/// The configuration of the DHCP server for IPv4.
pub open spec fn dhcp4_lines(
    dev: Seq<char>,
    prefix: Seq<char>,
    from: Seq<char>,
    to: Seq<char>,
    host: Seq<char>,
) -> Seq<Seq<char>> {
    seq![
        "{"@,
        "  \"Dhcp4\": {"@,
        "    \"interfaces-config\": { \"interfaces\": [ \""@ + dev
            + "\" ], \"re-detect\": true, \"service-sockets-require-all\": true },"@,
        "    \"lease-database\": { \"type\": \"memfile\", \"persist\": false, \"name\": \"/tmp/dhcp4.leases\" },"@,
        "    \"valid-lifetime\": 3600,"@,
        "    \"subnet4\": [ {"@,
        "      \"id\": 1,"@,
        "      \"subnet\": \""@ + prefix + "\","@,
        "      \"interface\": \""@ + dev + "\","@,
        "      \"pools\": [ { \"pool\": \""@ + from + " - "@ + to + "\" } ],"@,
        "      \"option-data\": ["@,
        "        { \"name\": \"routers\", \"data\": \""@ + host + "\" },"@,
        "        { \"name\": \"domain-name-servers\", \"data\": \""@ + host + "\" }"@,
        "      ]"@,
        "    } ],"@,
        "    \"loggers\": [ { \"name\": \"kea-dhcp4\", \"severity\": \"INFO\", \"output-options\": [ { \"output\": \"stdout\" } ] } ]"@,
        "  }"@,
        "}"@,
    ]
}

/// The configuration of the DHCP server for IPv4.
pub fn kea_dhcp4_conf(dev: &str, prefix: &str, from: &str, to: &str, host: &str) -> (r: String)
    ensures
        r@ == lines_text(dhcp4_lines(dev@, prefix@, from@, to@, host@)),
{
    let lines = vec![
        "{".to_owned(),
        "  \"Dhcp4\": {".to_owned(),
        "    \"interfaces-config\": { \"interfaces\": [ \"".to_owned().concat(dev).concat(
            "\" ], \"re-detect\": true, \"service-sockets-require-all\": true },",
        ),
        "    \"lease-database\": { \"type\": \"memfile\", \"persist\": false, \"name\": \"/tmp/dhcp4.leases\" },".to_owned(),
        "    \"valid-lifetime\": 3600,".to_owned(),
        "    \"subnet4\": [ {".to_owned(),
        "      \"id\": 1,".to_owned(),
        "      \"subnet\": \"".to_owned().concat(prefix).concat("\","),
        "      \"interface\": \"".to_owned().concat(dev).concat("\","),
        "      \"pools\": [ { \"pool\": \"".to_owned().concat(from).concat(" - ").concat(to).concat("\" } ],"),
        "      \"option-data\": [".to_owned(),
        "        { \"name\": \"routers\", \"data\": \"".to_owned().concat(host).concat("\" },"),
        "        { \"name\": \"domain-name-servers\", \"data\": \"".to_owned().concat(host).concat("\" }"),
        "      ]".to_owned(),
        "    } ],".to_owned(),
        "    \"loggers\": [ { \"name\": \"kea-dhcp4\", \"severity\": \"INFO\", \"output-options\": [ { \"output\": \"stdout\" } ] } ]".to_owned(),
        "  }".to_owned(),
        "}".to_owned(),
    ];
    assert(texts(lines@) == dhcp4_lines(dev@, prefix@, from@, to@, host@));
    write_lines(&lines)
}

/// The configuration of the DHCP server for IPv6.
pub open spec fn dhcp6_lines(dev: Seq<char>, subnet: Seq<char>, from: Seq<char>, to: Seq<char>) -> Seq<
    Seq<char>,
> {
    seq![
        "{"@,
        "  \"Dhcp6\": {"@,
        "    \"interfaces-config\": { \"interfaces\": [ \""@ + dev
            + "\" ], \"re-detect\": true, \"service-sockets-require-all\": true },"@,
        "    \"lease-database\": { \"type\": \"memfile\", \"persist\": false, \"name\": \"/tmp/dhcp6.leases\" },"@,
        "    \"server-id\": { \"type\": \"LLT\", \"persist\": false },"@,
        "    \"subnet6\": [ {"@,
        "      \"id\": 1,"@,
        "      \"subnet\": \""@ + subnet + "\","@,
        "      \"interface\": \""@ + dev + "\","@,
        "      \"pools\": [ { \"pool\": \""@ + from + " - "@ + to + "\" } ]"@,
        "    } ],"@,
        "    \"loggers\": [ { \"name\": \"kea-dhcp6\", \"severity\": \"INFO\", \"output-options\": [ { \"output\": \"stdout\" } ] } ]"@,
        "  }"@,
        "}"@,
    ]
}

/// The configuration of the DHCP server for IPv6.
pub fn kea_dhcp6_conf(dev: &str, subnet: &str, from: &str, to: &str) -> (r: String)
    ensures
        r@ == lines_text(dhcp6_lines(dev@, subnet@, from@, to@)),
{
    let lines = vec![
        "{".to_owned(),
        "  \"Dhcp6\": {".to_owned(),
        "    \"interfaces-config\": { \"interfaces\": [ \"".to_owned().concat(dev).concat(
            "\" ], \"re-detect\": true, \"service-sockets-require-all\": true },",
        ),
        "    \"lease-database\": { \"type\": \"memfile\", \"persist\": false, \"name\": \"/tmp/dhcp6.leases\" },".to_owned(),
        "    \"server-id\": { \"type\": \"LLT\", \"persist\": false },".to_owned(),
        "    \"subnet6\": [ {".to_owned(),
        "      \"id\": 1,".to_owned(),
        "      \"subnet\": \"".to_owned().concat(subnet).concat("\","),
        "      \"interface\": \"".to_owned().concat(dev).concat("\","),
        "      \"pools\": [ { \"pool\": \"".to_owned().concat(from).concat(" - ").concat(to).concat("\" } ]"),
        "    } ],".to_owned(),
        "    \"loggers\": [ { \"name\": \"kea-dhcp6\", \"severity\": \"INFO\", \"output-options\": [ { \"output\": \"stdout\" } ] } ]".to_owned(),
        "  }".to_owned(),
        "}".to_owned(),
    ];
    assert(texts(lines@) == dhcp6_lines(dev@, subnet@, from@, to@));
    write_lines(&lines)
}

/// The configuration of the resolver.
pub open spec fn resolver_lines(host: Seq<char>, prefix: Seq<char>) -> Seq<Seq<char>> {
    seq![
        "server:"@,
        "  interface: "@ + host,
        "  port: 53"@,
        "  access-control: "@ + prefix + " allow"@,
        "  access-control: 127.0.0.0/8 allow"@,
        "  do-daemonize: no"@,
        "  username: \"\""@,
        "  chroot: \"\""@,
        "  directory: \"/tmp\""@,
        "  pidfile: \"/tmp/unbound.pid\""@,
        "  use-syslog: no"@,
        "  logfile: /dev/null"@,
    ]
}

/// The configuration of the resolver.
pub fn unbound_conf(host: &str, prefix: &str) -> (r: String)
    ensures
        r@ == lines_text(resolver_lines(host@, prefix@)),
{
    let lines = vec![
        "server:".to_owned(),
        "  interface: ".to_owned().concat(host),
        "  port: 53".to_owned(),
        "  access-control: ".to_owned().concat(prefix).concat(" allow"),
        "  access-control: 127.0.0.0/8 allow".to_owned(),
        "  do-daemonize: no".to_owned(),
        "  username: \"\"".to_owned(),
        "  chroot: \"\"".to_owned(),
        "  directory: \"/tmp\"".to_owned(),
        "  pidfile: \"/tmp/unbound.pid\"".to_owned(),
        "  use-syslog: no".to_owned(),
        "  logfile: /dev/null".to_owned(),
    ];
    assert(texts(lines@) == resolver_lines(host@, prefix@));
    write_lines(&lines)
}

// ---------------------------------------------------------------------------
// Reports
// ---------------------------------------------------------------------------

/// What a report says of one generation of the services: nothing where it is
/// no report or speaks of another generation.
pub open spec fn report_of(report: Seq<char>, generation: Seq<char>) -> Option<Option<Seq<char>>> {
    match split_once(trim(report), ' ') {
        Some((observed, status)) => if observed != generation {
            None
        } else if status == "ok"@ {
            Some(None)
        } else {
            Some(Some("Host LAN service reconciliation failed: "@ + status))
        },
        None => None,
    }
}

/// What a report says of one generation of the services.
pub fn parse_lan_services_result(report: &str, generation: &str) -> (r: Option<Result<(), String>>)
    ensures
        match r {
            Some(outcome) => report_of(report@, generation@) == Some(failure(outcome)),
            None => report_of(report@, generation@) is None,
        },
{
    match text::cut(text::trimmed(report).as_str(), ' ') {
        Some((observed, status)) => {
            if !same(observed.as_str(), generation) {
                return None;
            }
            Some(
                if same(status.as_str(), "ok") {
                    Ok(())
                } else {
                    Err("Host LAN service reconciliation failed: ".to_owned().concat(status.as_str()))
                },
            )
        },
        None => None,
    }
}

/// A report of one generation says nothing of another.
pub proof fn law_report_is_of_one_generation(report: Seq<char>, a: Seq<char>, b: Seq<char>)
    requires
        report_of(report, a) is Some,
        report_of(report, b) is Some,
    ensures
        a == b,
{
}

/// What a look at the report yields while the services are waited for.
pub enum Look {
    /// What is in the report.
    Found(String),
    /// There is none yet.
    Missing,
    /// It cannot be read.
    Unreadable(String),
}

/// What is known of the services after a look, if the wait is over: the
/// outcome of the awaited generation, an unreadable report, or that the time
/// is up.
pub open spec fn wait_outcome(look: Look, generation: Seq<char>, late: bool) -> Option<Option<Seq<char>>> {
    match look {
        Look::Unreadable(e) => Some(Some("read Host LAN service result: "@ + e@)),
        Look::Found(report) if report_of(report@, generation) is Some => report_of(report@, generation),
        _ => if late {
            Some(Some("Host LAN service reconciliation timed out"@))
        } else {
            None
        },
    }
}

/// Whether the wait for the services is over after a look, and how it ended.
pub fn wait_lan_services(look: Look, generation: &str, late: bool) -> (r: Option<Result<(), String>>)
    ensures
        match r {
            Some(outcome) => wait_outcome(look, generation@, late) == Some(failure(outcome)),
            None => wait_outcome(look, generation@, late) is None,
        },
{
    match look {
        Look::Unreadable(e) => {
            return Some(Err("read Host LAN service result: ".to_owned().concat(e.as_str())));
        },
        Look::Found(report) => {
            match parse_lan_services_result(report.as_str(), generation) {
                Some(outcome) => return Some(outcome),
                None => {},
            }
        },
        Look::Missing => {},
    }
    if late {
        Some(Err("Host LAN service reconciliation timed out".to_owned()))
    } else {
        None
    }
}

/// The services are taken to be there only where a report of the awaited
/// generation says so.
pub proof fn law_no_acceptance_without_a_report(look: Look, generation: Seq<char>, late: bool)
    requires
        wait_outcome(look, generation, late) == Some(None::<Seq<char>>),
    ensures
        look matches Look::Found(report) && split_once(trim(report@), ' ') == Some((generation, "ok"@)),
{
}

/// What is observed of the readiness marker after it was to be written or
/// taken away.
pub enum Observed {
    Marker(String),
    NoMarker,
    Unreadable(String),
}

/// What setting the readiness of the services came to: the marker has to be
/// what it was to be, whatever the write said.
pub open spec fn ready_error(
    wanted: Option<Seq<char>>,
    written: Option<Seq<char>>,
    observed: Observed,
) -> Option<Seq<char>> {
    let seen = match observed {
        Observed::Marker(m) => Some(m@),
        _ => None,
    };
    match observed {
        Observed::Unreadable(e) => Some("inspect LAN service readiness: "@ + e@),
        _ => if seen == wanted {
            None
        } else {
            match written {
                Some(e) => Some(e),
                None => Some("LAN service readiness did not reach requested state"@),
            }
        },
    }
}

/// What setting the readiness of the services came to: `wanted` is the
/// generation that the marker is to name, or none where it is to be gone.
pub fn set_lan_services_ready(wanted: Option<String>, written: Result<(), String>, observed: Observed) -> (r:
    Result<Option<String>, String>)
    ensures
        match r {
            Ok(g) => g == wanted && ready_error(text_opt(wanted), failure(written), observed) is None,
            Err(e) => ready_error(text_opt(wanted), failure(written), observed) == Some(e@),
        },
{
    let reached = match &observed {
        Observed::Unreadable(e) => {
            return Err("inspect LAN service readiness: ".to_owned().concat(e.as_str()));
        },
        Observed::Marker(m) => match &wanted {
            Some(g) => same(m.as_str(), g.as_str()),
            None => false,
        },
        Observed::NoMarker => wanted.is_none(),
    };
    if reached {
        return Ok(wanted);
    }
    match written {
        Err(e) => Err(e),
        Ok(_) => Err("LAN service readiness did not reach requested state".to_owned()),
    }
}

/// Every address that a state gives an interface or a tunnel is configured on
/// it, and so is the one that a delegated prefix gives the LAN.
pub proof fn law_every_address_is_configured(s: DesiredView, i: int, k: int)
    ensures
        0 <= i < s.interfaces.len() && 0 <= k < s.interfaces[i].addresses.len() ==> configured_addresses(s).contains(
            (s.interfaces[i].name, s.interfaces[i].addresses[k]),
        ),
        0 <= i < s.wireguard.len() && 0 <= k < s.wireguard[i].addresses.len() ==> configured_addresses(s).contains(
            (s.wireguard[i].name, s.wireguard[i].addresses[k]),
        ),
        lan_place(s) is Some && s.wan_pd is Some && delegated_subnet(s.wan_pd->0) is Some ==> configured_addresses(
            s,
        ).contains(
            (
                s.interfaces[lan_place(s)->0].name,
                delegated_texts(delegated_subnet(s.wan_pd->0)->0).0,
            ),
        ),
{
    let a = concat(s.interfaces.len(), iface_pairs(s.interfaces));
    let b = concat(s.wireguard.len(), wireguard_pairs(s.wireguard));
    let c = delegated_pair(s);
    let all = configured_addresses(s);
    if 0 <= i < s.interfaces.len() && 0 <= k < s.interfaces[i].addresses.len() {
        let x = (s.interfaces[i].name, s.interfaces[i].addresses[k]);
        let piece = iface_pairs(s.interfaces)(i);
        assert(piece[k] == x);
        lemma_concat_has(s.interfaces.len(), iface_pairs(s.interfaces), i, x);
        let e = choose|e: int| 0 <= e < a.len() && a[e] == x;
        assert(all[e] == x);
    }
    if 0 <= i < s.wireguard.len() && 0 <= k < s.wireguard[i].addresses.len() {
        let x = (s.wireguard[i].name, s.wireguard[i].addresses[k]);
        let piece = wireguard_pairs(s.wireguard)(i);
        assert(piece[k] == x);
        lemma_concat_has(s.wireguard.len(), wireguard_pairs(s.wireguard), i, x);
        let e = choose|e: int| 0 <= e < b.len() && b[e] == x;
        assert(all[a.len() + e] == x);
    }
    if lan_place(s) is Some && s.wan_pd is Some && delegated_subnet(s.wan_pd->0) is Some {
        assert(all[(a.len() + b.len()) as int] == c[0]);
    }
}

/// The LAN interface gets the first host of the LAN prefix, with the length of
/// that prefix, unless it has that host's address; and nothing else is changed.
pub proof fn law_lan_gets_its_address(s: DesiredView, prefix: Seq<char>, host: Seq<char>, k: int)
    requires
        s.lan_prefix == Some(prefix) || (s.lan_prefix is None && s.dhcp_pool is Some && pool_prefix(s.dhcp_pool->0)
            == Some(prefix)),
        first_host(prefix) == Some(host),
        lan_place(s) == Some(k),
        0 <= k < s.interfaces.len(),
    ensures
        ({
            let t = with_lan_address(s);
            let there = exists|j: int|
                0 <= j < s.interfaces[k].addresses.len() && starts_with(
                    #[trigger] s.interfaces[k].addresses[j],
                    host + "/"@,
                );
            &&& there ==> t == s
            &&& !there ==> t.interfaces[k].addresses == s.interfaces[k].addresses.push(
                host + "/"@ + prefix_length(prefix),
            )
            &&& t == (DesiredView { interfaces: t.interfaces, ..s })
            &&& t.interfaces.len() == s.interfaces.len()
            &&& forall|i: int| 0 <= i < s.interfaces.len() && i != k ==> #[trigger] t.interfaces[i] == s.interfaces[i]
            &&& t.interfaces[k] == (IfaceView { addresses: t.interfaces[k].addresses, ..s.interfaces[k] })
        }),
{
}

/// The length of a prefix is what stands behind its slash, or 24 bits where it
/// has none.
pub proof fn law_prefix_lengths(a: Seq<char>, bits: Seq<char>)
    requires
        !a.contains('/'),
        !bits.contains('/'),
    ensures
        prefix_length(a + "/"@ + bits) == bits,
        prefix_length(a) == "24"@,
{
    reveal_strlit("/");
    assert("/"@ =~= seq!['/']);
    assert forall|j: int| 0 <= j < a.len() implies a[j] != '/' by {
        assert(a.contains(a[j]));
    }
    assert forall|j: int| 0 <= j < bits.len() implies bits[j] != '/' by {
        assert(bits.contains(bits[j]));
    }
    text::lemma_split_none(a, '/');
    text::lemma_split_behind(a, '/', bits);
}

/// Without a prefix, a pool or a LAN interface no address is given.
pub proof fn law_no_lan_address_without_a_prefix(s: DesiredView)
    requires
        (s.lan_prefix is None && s.dhcp_pool is None) || lan_place(s) is None,
    ensures
        with_lan_address(s) == s,
{
}

/// A report that names the generation and says that all is well is taken as
/// such; any other word behind the generation is a failure, which is told.
pub proof fn law_reports_are_understood(report: Seq<char>, generation: Seq<char>, status: Seq<char>)
    requires
        trim(report) == generation + " "@ + status,
        !generation.contains(' '),
    ensures
        status == "ok"@ ==> report_of(report, generation) == Some(None::<Seq<char>>),
        status != "ok"@ ==> report_of(report, generation) == Some(
            Some("Host LAN service reconciliation failed: "@ + status),
        ),
{
    reveal_strlit(" ");
    assert(" "@ =~= seq![' ']);
    lemma_split_once(generation, ' ', status);
}

/// The wait ends with the report of the awaited generation, however late it is;
/// else with an unreadable report or when the time is up, and not before.
pub proof fn law_wait_ends_with_the_report(look: Look, generation: Seq<char>, late: bool)
    ensures
        look matches Look::Found(report) ==> report_of(report@, generation) is Some ==> wait_outcome(
            look,
            generation,
            late,
        ) == report_of(report@, generation),
        look is Missing && !late ==> wait_outcome(look, generation, late) is None,
        look is Missing && late ==> wait_outcome(look, generation, late) == Some(
            Some("Host LAN service reconciliation timed out"@),
        ),
        look matches Look::Found(report) ==> report_of(report@, generation) is None ==> (wait_outcome(
            look,
            generation,
            late,
        ) is None <==> !late),
        look matches Look::Unreadable(e) ==> wait_outcome(look, generation, late) == Some(
            Some("read Host LAN service result: "@ + e@),
        ),
{
}

/// Readiness is set just where the marker is seen to be what it was to be: the
/// wanted generation, or none.
pub proof fn law_readiness_is_what_is_seen(
    wanted: Option<Seq<char>>,
    written: Option<Seq<char>>,
    observed: Observed,
)
    ensures
        ready_error(wanted, written, observed) is None <==> match observed {
            Observed::Marker(m) => wanted == Some(m@),
            Observed::NoMarker => wanted is None,
            Observed::Unreadable(_) => false,
        },
{
}

/// The DHCP servers listen on the LAN, lease out of its pool, and tell the
/// appliance as router and resolver; and the resolver answers there, and only
/// who is on the LAN or the appliance itself.
pub proof fn law_services_are_those_of_the_lan(
    dev: Seq<char>,
    prefix: Seq<char>,
    from: Seq<char>,
    to: Seq<char>,
    host: Seq<char>,
)
    ensures
        dhcp4_lines(dev, prefix, from, to, host).contains(
            "    \"interfaces-config\": { \"interfaces\": [ \""@ + dev
                + "\" ], \"re-detect\": true, \"service-sockets-require-all\": true },"@,
        ),
        dhcp4_lines(dev, prefix, from, to, host).contains("      \"subnet\": \""@ + prefix + "\","@),
        dhcp4_lines(dev, prefix, from, to, host).contains("      \"interface\": \""@ + dev + "\","@),
        dhcp4_lines(dev, prefix, from, to, host).contains(
            "      \"pools\": [ { \"pool\": \""@ + from + " - "@ + to + "\" } ],"@,
        ),
        dhcp4_lines(dev, prefix, from, to, host).contains(
            "        { \"name\": \"routers\", \"data\": \""@ + host + "\" },"@,
        ),
        dhcp4_lines(dev, prefix, from, to, host).contains(
            "        { \"name\": \"domain-name-servers\", \"data\": \""@ + host + "\" }"@,
        ),
        dhcp6_lines(dev, prefix, from, to).contains(
            "    \"interfaces-config\": { \"interfaces\": [ \""@ + dev
                + "\" ], \"re-detect\": true, \"service-sockets-require-all\": true },"@,
        ),
        dhcp6_lines(dev, prefix, from, to).contains("      \"subnet\": \""@ + prefix + "\","@),
        dhcp6_lines(dev, prefix, from, to).contains("      \"interface\": \""@ + dev + "\","@),
        dhcp6_lines(dev, prefix, from, to).contains(
            "      \"pools\": [ { \"pool\": \""@ + from + " - "@ + to + "\" } ]"@,
        ),
        resolver_lines(host, prefix).contains("  interface: "@ + host),
        resolver_lines(host, prefix).contains("  access-control: "@ + prefix + " allow"@),
        resolver_lines(host, prefix).contains("  access-control: 127.0.0.0/8 allow"@),
        resolver_lines(host, prefix).contains("  port: 53"@),
{
    let a = dhcp4_lines(dev, prefix, from, to, host);
    let b = dhcp6_lines(dev, prefix, from, to);
    let c = resolver_lines(host, prefix);
    assert(a.contains(a[2]) && a.contains(a[7]) && a.contains(a[8]) && a.contains(a[9]) && a.contains(a[11])
        && a.contains(a[12]));
    assert(b.contains(b[2]) && b.contains(b[7]) && b.contains(b[8]) && b.contains(b[9]));
    assert(c.contains(c[1]) && c.contains(c[2]) && c.contains(c[3]) && c.contains(c[4]));
}

} // verus!
