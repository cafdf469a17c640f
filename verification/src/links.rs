//! What the network tools report: devices, addresses, queueing disciplines and
//! ports, and whether a command did what it was to do.

use crate::ip;
use crate::ip::{parse, IpAddr};
use crate::json;
use crate::json::{alike, json_document, lemma_list_view, list_view, Json, JsonView};
use crate::text;
use crate::text::{
    add_text, before, collect, failure, first_some, holds_text, join, joined, lemma_first_some,
    lines, lines_of, occurs, parse_number, parse_unsigned, same, split, split_once, text_opt, texts,
    trim, trimmed, words, words_of,
};
use vstd::prelude::*;

verus! {

// ---------------------------------------------------------------------------
// Lines of `ip`
// ---------------------------------------------------------------------------

/// The device of a line of `ip -o`: its second word, up to an at sign.
pub open spec fn device_of(line: Seq<char>) -> Seq<char> {
    let w = words(line);
    if w.len() > 1 {
        before(w[1], '@')
    } else {
        Seq::empty()
    }
}

pub open spec fn address_word(w: Seq<Seq<char>>) -> spec_fn(int) -> Option<int> {
    |i: int|
        if w[i] == "inet"@ || w[i] == "inet6"@ {
            Some(i)
        } else {
            None
        }
}

/// The address of a line of `ip -o addr`: the word behind the first `inet` or
/// `inet6`.
pub open spec fn cidr_of(line: Seq<char>) -> Option<Seq<char>> {
    let w = words(line);
    match first_some(w.len(), address_word(w)) {
        Some(i) => if 0 <= i && i + 1 < w.len() {
            Some(w[i + 1])
        } else {
            None
        },
        None => None,
    }
}

/// The device of a line of `ip -o`.
pub fn addr_dev(line: &str) -> (r: String)
    ensures
        r@ == device_of(line@),
{
    let w = words_of(line);
    if w.len() > 1 {
        assert(words(line@)[1] == texts(w@)[1]);
        text::head(w[1].as_str(), '@')
    } else {
        let r = String::new();
        assert(r@ == Seq::<char>::empty());
        r
    }
}

/// The address of a line of `ip -o addr`.
pub fn addr_cidr(line: &str) -> (r: Option<String>)
    ensures
        text_opt(r) == cidr_of(line@),
{
    let w = words_of(line);
    let ghost t = words(line@);
    let ghost f = address_word(t);
    let mut i: usize = 0;
    while i < w.len()
        invariant
            texts(w@) == t,
            t == words(line@),
            f == address_word(t),
            i <= w@.len(),
            first_some(i as nat, f) is None,
        decreases w@.len() - i,
    {
        assert(t[i as int] == texts(w@)[i as int]);
        if same(w[i].as_str(), "inet") || same(w[i].as_str(), "inet6") {
            proof {
                lemma_first_some((i + 1) as nat, t.len(), f);
            }
            if i + 1 < w.len() {
                assert(t[i + 1] == texts(w@)[i + 1]);
                return Some(w[i + 1].clone());
            }
            return None;
        }
        i = i + 1;
    }
    None
}

/// The addresses of the lines, each once, in order; of one device where one
/// is named.
pub open spec fn addresses_of(lines: Seq<Seq<char>>, dev: Option<Seq<char>>) -> Seq<Seq<char>>
    decreases lines.len(),
{
    if lines.len() == 0 {
        Seq::empty()
    } else {
        let found = addresses_of(lines.drop_last(), dev);
        match cidr_of(lines.last()) {
            Some(c) => if (dev is None || device_of(lines.last()) == dev->0) && !found.contains(c) {
                found.push(c)
            } else {
                found
            },
            None => found,
        }
    }
}

fn read_addresses(v: &Vec<String>, dev: Option<&str>) -> (r: Vec<String>)
    ensures
        texts(r@) == addresses_of(texts(v@), text::str_opt(dev)),
{
    let ghost t = texts(v@);
    let ghost d = text::str_opt(dev);
    let mut out: Vec<String> = Vec::new();
    let mut i: usize = 0;
    proof {
        assert(t.take(0) == Seq::<Seq<char>>::empty());
        assert(texts(out@) == Seq::<Seq<char>>::empty());
    }
    while i < v.len()
        invariant
            t == texts(v@),
            d == text::str_opt(dev),
            i <= v@.len(),
            texts(out@) == addresses_of(t.take(i as int), d),
        decreases v@.len() - i,
    {
        proof {
            let next = t.take(i + 1);
            assert(next.drop_last() == t.take(i as int));
            assert(next.last() == v@[i as int]@);
        }
        let line = v[i].as_str();
        let wanted = match dev {
            Some(name) => same(addr_dev(line).as_str(), name),
            None => true,
        };
        if wanted {
            if let Some(c) = addr_cidr(line) {
                if !holds_text(&out, c.as_str()) {
                    add_text(&mut out, c);
                }
            }
        }
        i = i + 1;
    }
    proof {
        assert(t.take(i as int) == t);
    }
    out
}

/// The addresses in the output of `ip -o addr show` for one device.
pub fn iface_cidrs(output: &str) -> (r: Vec<String>)
    ensures
        texts(r@) == addresses_of(lines(output@), None),
{
    let v = lines_of(output);
    let none: Option<&str> = None;
    read_addresses(&v, none)
}

/// Whether no earlier name is the same.
pub open spec fn first_of_name(names: Seq<Seq<char>>, i: int) -> bool {
    forall|j: int| 0 <= j < i ==> #[trigger] names[j] != names[i]
}

/// Each NIC with its addresses; where a name occurs twice, the first has them.
pub open spec fn nic_list(names: Seq<Seq<char>>, output: Seq<char>) -> Seq<(Seq<char>, Seq<Seq<char>>)> {
    Seq::new(
        names.len(),
        |i: int|
            (
                names[i],
                if first_of_name(names, i) {
                    addresses_of(lines(output), Some(names[i]))
                } else {
                    Seq::empty()
                },
            ),
    )
}

fn is_first(names: &Vec<String>, i: usize) -> (r: bool)
    requires
        i < names@.len(),
    ensures
        r == first_of_name(texts(names@), i as int),
{
    let ghost t = texts(names@);
    let mut j: usize = 0;
    while j < i
        invariant
            t == texts(names@),
            j <= i < names@.len(),
            forall|k: int| 0 <= k < j ==> #[trigger] t[k] != t[i as int],
        decreases i - j,
    {
        assert(t[j as int] == names@[j as int]@ && t[i as int] == names@[i as int]@);
        if same(names[j].as_str(), names[i].as_str()) {
            return false;
        }
        j = j + 1;
    }
    true
}

/// Each NIC with its addresses, from the output of `ip -o addr show`.
pub fn list_ethernet(names: &Vec<String>, output: &str) -> (r: Vec<(String, Vec<String>)>)
    ensures
        crate::exposure::exposure_views(r@) == nic_list(texts(names@), output@),
{
    let v = lines_of(output);
    let ghost t = texts(names@);
    let ghost all = nic_list(t, output@);
    let mut out: Vec<(String, Vec<String>)> = Vec::new();
    let mut i: usize = 0;
    while i < names.len()
        invariant
            t == texts(names@),
            all == nic_list(t, output@),
            texts(v@) == lines(output@),
            i <= names@.len(),
            out@.len() == i,
            forall|j: int| 0 <= j < i ==> ((#[trigger] out@[j]).0@, texts(out@[j].1@)) == all[j],
        decreases names@.len() - i,
    {
        assert(t[i as int] == names@[i as int]@);
        let addresses = if is_first(names, i) {
            read_addresses(&v, Some(names[i].as_str()))
        } else {
            let none: Vec<String> = Vec::new();
            assert(texts(none@) == Seq::<Seq<char>>::empty());
            none
        };
        out.push((names[i].clone(), addresses));
        i = i + 1;
    }
    assert(crate::exposure::exposure_views(out@) == all);
    out
}

pub open spec fn dotted_prefix(w: Seq<Seq<char>>) -> spec_fn(int) -> Option<Seq<char>> {
    |i: int|
        if w[i].contains('/') && w[i].contains('.') {
            Some(w[i])
        } else {
            None
        }
}

/// The IPv4 prefixes among the words of a text.
pub open spec fn dotted_prefixes(s: Seq<char>) -> Seq<Seq<char>> {
    collect(words(s).len(), dotted_prefix(words(s)))
}

pub open spec fn via_word(w: Seq<Seq<char>>) -> spec_fn(int) -> Option<int> {
    |i: int|
        if w[i] == "via"@ {
            Some(i)
        } else {
            None
        }
}

/// The gateway of a default route that names the device: the word behind the
/// first `via`.
pub open spec fn gateway_of(route: Seq<char>, name: Seq<char>) -> Option<Seq<char>> {
    let w = words(route);
    if occurs(route, name) {
        match first_some(w.len(), via_word(w)) {
            Some(i) => if 0 <= i && i + 1 < w.len() {
                Some(w[i + 1])
            } else {
                None
            },
            None => None,
        }
    } else {
        None
    }
}

/// The IPv4 prefixes of a device and the gateway of the default route through
/// it.
pub fn capture_ipv4(name: &str, addresses: &str, route: &str) -> (r: (Vec<String>, Option<String>))
    ensures
        texts(r.0@) == dotted_prefixes(addresses@),
        text_opt(r.1) == gateway_of(route@, name@),
{
    let w = words_of(addresses);
    let ghost t = words(addresses@);
    let ghost f = dotted_prefix(t);
    let mut out: Vec<String> = Vec::new();
    let mut i: usize = 0;
    assert(texts(out@) == Seq::<Seq<char>>::empty());
    while i < w.len()
        invariant
            texts(w@) == t,
            f == dotted_prefix(t),
            i <= w@.len(),
            texts(out@) == collect(i as nat, f),
        decreases w@.len() - i,
    {
        assert(t[i as int] == texts(w@)[i as int]);
        if text::has_char(w[i].as_str(), '/') && text::has_char(w[i].as_str(), '.') {
            add_text(&mut out, w[i].clone());
        }
        i = i + 1;
    }
    (out, find_gateway(route, name))
}

fn find_gateway(route: &str, name: &str) -> (r: Option<String>)
    ensures
        text_opt(r) == gateway_of(route@, name@),
{
    if !text::holds(route, name) {
        return None;
    }
    let w = words_of(route);
    let ghost t = words(route@);
    let ghost f = via_word(t);
    let mut i: usize = 0;
    while i < w.len()
        invariant
            occurs(route@, name@),
            texts(w@) == t,
            t == words(route@),
            f == via_word(t),
            i <= w@.len(),
            first_some(i as nat, f) is None,
        decreases w@.len() - i,
    {
        assert(t[i as int] == texts(w@)[i as int]);
        if same(w[i].as_str(), "via") {
            proof {
                lemma_first_some((i + 1) as nat, t.len(), f);
            }
            if i + 1 < w.len() {
                assert(t[i + 1] == texts(w@)[i + 1]);
                return Some(w[i + 1].clone());
            }
            return None;
        }
        i = i + 1;
    }
    None
}

// ---------------------------------------------------------------------------
// Traffic NICs
// ---------------------------------------------------------------------------

/// What `ip -j -d link` says of a link.
#[derive(Debug)]
pub struct Link {
    pub ifname: String,
    pub link_type: String,
    pub info_kind: Option<String>,
}

pub open spec fn traffic_name(links: Seq<Link>) -> spec_fn(int) -> Option<Seq<char>> {
    |i: int|
        if links[i].link_type@ == "ether"@ && links[i].info_kind is None {
            Some(links[i].ifname@)
        } else {
            None
        }
}

/// The names of the links with Ethernet framing that are no virtual links.
pub open spec fn traffic_names(links: Seq<Link>) -> Seq<Seq<char>> {
    collect(links.len(), traffic_name(links))
}

/// The names of the Traffic NICs.
pub fn traffic_nic_names(links: &Vec<Link>) -> (r: Vec<String>)
    ensures
        texts(r@) == traffic_names(links@),
{
    let ghost f = traffic_name(links@);
    let mut out: Vec<String> = Vec::new();
    let mut i: usize = 0;
    assert(texts(out@) == Seq::<Seq<char>>::empty());
    while i < links.len()
        invariant
            f == traffic_name(links@),
            i <= links@.len(),
            texts(out@) == collect(i as nat, f),
        decreases links@.len() - i,
    {
        if same(links[i].link_type.as_str(), "ether") && links[i].info_kind.is_none() {
            add_text(&mut out, links[i].ifname.clone());
        }
        i = i + 1;
    }
    out
}

// ---------------------------------------------------------------------------
// Live addresses, queueing disciplines, ports, groups
// ---------------------------------------------------------------------------

/// An address and a prefix length of up to eight bits.
pub open spec fn address_and_bits(cidr: Seq<char>) -> Option<(IpAddr, nat)> {
    match split_once(cidr, '/') {
        Some((a, n)) => match (parse(a), parse_unsigned(n, 255)) {
            (Some(ip), Some(bits)) => Some((ip, bits)),
            _ => None,
        },
        None => None,
    }
}

/// Whether one entry of `addr_info` is that address.
pub open spec fn is_live(entry: JsonView, ip: IpAddr, bits: nat) -> bool {
    &&& entry.text_member("local"@) is Some
    &&& parse(entry.text_member("local"@)->0) == Some(ip)
    &&& entry.natural_member("prefixlen"@) is Some
    &&& entry.natural_member("prefixlen"@)->0 == bits
}

pub open spec fn live_on(link: JsonView, ip: IpAddr, bits: nat) -> bool {
    match link.member("addr_info"@) {
        Some(JsonView::List(l)) => exists|k: int| 0 <= k < l.len() && is_live(#[trigger] l[k], ip, bits),
        _ => false,
    }
}

/// Whether a link that `ip -j address` reports has that address.
pub open spec fn live_among(links: JsonView, ip: IpAddr, bits: nat) -> bool {
    match links {
        JsonView::List(l) => exists|i: int| 0 <= i < l.len() && live_on(#[trigger] l[i], ip, bits),
        _ => false,
    }
}

fn entry_is_live(entry: &Json, ip: IpAddr, bits: u64) -> (r: bool)
    ensures
        r == is_live(entry@, ip, bits as nat),
{
    match (entry.text_member("local"), entry.natural_member("prefixlen")) {
        (Some(local), Some(n)) => match ip::read(local) {
            Some(a) => a == ip && n == bits,
            None => false,
        },
        _ => false,
    }
}

fn link_is_live(link: &Json, ip: IpAddr, bits: u64) -> (r: bool)
    ensures
        r == live_on(link@, ip, bits as nat),
{
    match link.get("addr_info") {
        Some(info) => match info.as_list() {
            Some(l) => {
                proof {
                    lemma_list_view(l@);
                }
                let ghost v = list_view(l@);
                let mut k: usize = 0;
                while k < l.len()
                    invariant
                        v == list_view(l@),
                        v.len() == l@.len(),
                        forall|j: int| 0 <= j < l@.len() ==> #[trigger] v[j] == l@[j]@,
                        link@.member("addr_info"@) == Some(JsonView::List(v)),
                        k <= l@.len(),
                        forall|j: int| 0 <= j < k ==> !is_live(#[trigger] v[j], ip, bits as nat),
                    decreases l@.len() - k,
                {
                    assert(v[k as int] == l@[k as int]@);
                    if entry_is_live(&l[k], ip, bits) {
                        proof {
                            let l = (link@.member("addr_info"@)->0)->List_0;
                            assert(l == v);
                            assert(is_live(l[k as int], ip, bits as nat));
                        }
                        return true;
                    }
                    k = k + 1;
                }
                false
            },
            None => false,
        },
        None => false,
    }
}

/// Whether a link that `ip -j address` reports has that address.
pub fn has_live_address(links: &Json, ip: IpAddr, bits: u64) -> (r: bool)
    ensures
        r == live_among(links@, ip, bits as nat),
{
    match links.as_list() {
        Some(l) => {
            proof {
                lemma_list_view(l@);
            }
            let ghost v = list_view(l@);
            let mut i: usize = 0;
            while i < l.len()
                invariant
                    v == list_view(l@),
                    v.len() == l@.len(),
                    forall|j: int| 0 <= j < l@.len() ==> #[trigger] v[j] == l@[j]@,
                    links@ == JsonView::List(v),
                    i <= l@.len(),
                    forall|j: int| 0 <= j < i ==> !live_on(#[trigger] v[j], ip, bits as nat),
                decreases l@.len() - i,
            {
                assert(v[i as int] == l@[i as int]@);
                if link_is_live(&l[i], ip, bits) {
                    proof {
                        let l = links@->List_0;
                        assert(l == v);
                        assert(live_on(l[i as int], ip, bits as nat));
                    }
                    return true;
                }
                i = i + 1;
            }
            false
        },
        None => false,
    }
}

/// Whether the output of `ip -j address show` for a device has an address: an
/// error where the address or the output cannot be read.
pub open spec fn live_outcome(dev: Seq<char>, cidr: Seq<char>, links: Result<JsonView, Seq<char>>) -> Result<
    bool,
    Seq<char>,
> {
    match address_and_bits(cidr) {
        None => Err("invalid address prefix on "@ + dev),
        Some((ip, bits)) => match links {
            Ok(v) => Ok(live_among(v, ip, bits)),
            Err(e) => Err("decode addresses on "@ + dev + ": "@ + e),
        },
    }
}

/// Whether the output of `ip -j address show` for a device has an address.
pub fn live_address(dev: &str, cidr: &str, output: &[u8]) -> (r: Result<bool, String>)
    ensures
        match r {
            Ok(b) => live_outcome(dev@, cidr@, json_document(output@)) == Ok::<bool, Seq<char>>(b),
            Err(e) => live_outcome(dev@, cidr@, json_document(output@)) == Err::<bool, Seq<char>>(e@),
        },
{
    let (ip, bits) = match text::cut(cidr, '/') {
        Some((a, n)) => match (ip::read(a.as_str()), parse_number(n.as_str(), 255)) {
            (Some(ip), Some(bits)) => (ip, bits),
            _ => return Err("invalid address prefix on ".to_owned().concat(dev)),
        },
        None => return Err("invalid address prefix on ".to_owned().concat(dev)),
    };
    match json::parse(output) {
        Ok(links) => Ok(has_live_address(&links, ip, bits)),
        Err(e) => Err(
            "decode addresses on ".to_owned().concat(dev).concat(": ").concat(e.as_str()),
        ),
    }
}

/// The queueing discipline at the root of a device.
#[derive(Debug)]
pub struct RootQdisc {
    pub kind: String,
    pub options: Json,
}

#[verifier::ext_equal]
pub struct RootQdiscView {
    pub kind: Seq<char>,
    pub options: JsonView,
}

impl View for RootQdisc {
    type V = RootQdiscView;

    open spec fn view(&self) -> RootQdiscView {
        RootQdiscView { kind: self.kind@, options: self.options@ }
    }
}

pub open spec fn root_view(q: Option<RootQdisc>) -> Option<RootQdiscView> {
    match q {
        Some(x) => Some(x@),
        None => None,
    }
}

pub open spec fn root_entry(l: Seq<JsonView>) -> spec_fn(int) -> Option<JsonView> {
    |i: int|
        if l[i].bool_member("root"@) == Some(true) {
            Some(l[i])
        } else {
            None
        }
}

/// The member of that name, or null.
pub open spec fn member_or_null(v: JsonView, key: Seq<char>) -> JsonView {
    match v.member(key) {
        Some(x) => x,
        None => JsonView::Null,
    }
}

/// The discipline at the root among those that `tc -j` reports: the first that
/// says it is the root, where it has a kind.
pub open spec fn root_among(v: JsonView) -> Option<RootQdiscView> {
    match v {
        JsonView::List(l) => match first_some(l.len(), root_entry(l)) {
            Some(q) => match q.text_member("kind"@) {
                Some(kind) => Some(RootQdiscView { kind, options: member_or_null(q, "options"@) }),
                None => None,
            },
            None => None,
        },
        _ => None,
    }
}

/// The discipline at the root among those that `tc -j` reports.
pub fn find_root_qdisc(v: &Json) -> (r: Option<RootQdisc>)
    ensures
        root_view(r) == root_among(v@),
{
    let l = match v.as_list() {
        Some(l) => l,
        None => return None,
    };
    proof {
        lemma_list_view(l@);
    }
    let ghost t = list_view(l@);
    let ghost f = root_entry(t);
    let mut i: usize = 0;
    while i < l.len()
        invariant
            v@ == JsonView::List(t),
            t == list_view(l@),
            t.len() == l@.len(),
            forall|j: int| 0 <= j < l@.len() ==> #[trigger] t[j] == l@[j]@,
            f == root_entry(t),
            i <= l@.len(),
            first_some(i as nat, f) is None,
        decreases l@.len() - i,
    {
        assert(t[i as int] == l@[i as int]@);
        let is_root = match l[i].bool_member("root") {
            Some(b) => b,
            None => false,
        };
        if is_root {
            proof {
                lemma_first_some((i + 1) as nat, t.len(), f);
            }
            return match l[i].text_member("kind") {
                Some(kind) => Some(
                    RootQdisc {
                        kind: kind.to_owned(),
                        options: match l[i].get("options") {
                            Some(x) => x.clone(),
                            None => Json::Null,
                        },
                    },
                ),
                None => None,
            };
        }
        i = i + 1;
    }
    None
}

/// The discipline at the root in the output of `tc -j qdisc show`.
pub open spec fn root_outcome(dev: Seq<char>, v: Result<JsonView, Seq<char>>) -> Result<
    Option<RootQdiscView>,
    Seq<char>,
> {
    match v {
        Ok(x) => Ok(root_among(x)),
        Err(e) => Err("decode qdisc on "@ + dev + ": "@ + e),
    }
}

/// The discipline at the root in the output of `tc -j qdisc show`.
pub fn root_qdisc(dev: &str, output: &[u8]) -> (r: Result<Option<RootQdisc>, String>)
    ensures
        match r {
            Ok(q) => root_outcome(dev@, json_document(output@)) == Ok::<Option<RootQdiscView>, Seq<char>>(
                root_view(q),
            ),
            Err(e) => root_outcome(dev@, json_document(output@)) == Err::<
                Option<RootQdiscView>,
                Seq<char>,
            >(e@),
        },
{
    match json::parse(output) {
        Ok(v) => Ok(find_root_qdisc(&v)),
        Err(e) => Err("decode qdisc on ".to_owned().concat(dev).concat(": ").concat(e.as_str())),
    }
}

/// Whether two roots are the same: of one kind, with equal options.
pub open spec fn roots_alike(a: Option<RootQdiscView>, b: Option<RootQdiscView>) -> bool {
    match (a, b) {
        (Some(x), Some(y)) => x.kind == y.kind && alike(x.options, y.options),
        (None, None) => true,
        _ => false,
    }
}

/// Whether two roots are the same.
pub fn same_root(a: &Option<RootQdisc>, b: &Option<RootQdisc>) -> (r: bool)
    ensures
        r == roots_alike(root_view(*a), root_view(*b)),
{
    match (a, b) {
        (Some(x), Some(y)) => same(x.kind.as_str(), y.kind.as_str()) && json::equal(
            &x.options,
            &y.options,
        ),
        (None, None) => true,
        _ => false,
    }
}

/// The port in the output of `wg show`.
pub open spec fn port_of(output: Seq<char>) -> Option<u16> {
    match parse_unsigned(trim(output), 65535) {
        Some(n) => Some(n as u16),
        None => None,
    }
}

/// The port in the output of `wg show`.
pub fn wireguard_listen_port(output: &str) -> (r: Option<u16>)
    ensures
        r == port_of(output@),
{
    match parse_number(trimmed(output).as_str(), 65535) {
        Some(n) => Some(n as u16),
        None => None,
    }
}

pub open spec fn wheel_line(l: Seq<Seq<char>>) -> spec_fn(int) -> Option<Seq<Seq<char>>> {
    |i: int|
        if split(l[i], ':')[0] == "wheel"@ {
            Some(split(l[i], ':'))
        } else {
            None
        }
}

/// The number of the group `wheel` in a group file: the third field of the
/// first line of that name.
pub open spec fn wheel_of(group: Seq<char>) -> Option<u32> {
    let l = lines(group);
    match first_some(l.len(), wheel_line(l)) {
        Some(p) => if p.len() > 2 && parse_unsigned(p[2], u32::MAX as nat) is Some {
            Some(parse_unsigned(p[2], u32::MAX as nat)->0 as u32)
        } else {
            None
        },
        None => None,
    }
}

/// The number of the group `wheel` in a group file.
pub fn wheel_gid(group: &str) -> (r: Option<u32>)
    ensures
        r == wheel_of(group@),
{
    let v = lines_of(group);
    let ghost l = lines(group@);
    let ghost f = wheel_line(l);
    let mut i: usize = 0;
    while i < v.len()
        invariant
            texts(v@) == l,
            l == lines(group@),
            f == wheel_line(l),
            i <= v@.len(),
            first_some(i as nat, f) is None,
        decreases v@.len() - i,
    {
        assert(l[i as int] == texts(v@)[i as int]);
        let p = text::parts(v[i].as_str(), ':');
        let ghost q = split(l[i as int], ':');
        assert(q[0] == texts(p@)[0]);
        if same(p[0].as_str(), "wheel") {
            proof {
                lemma_first_some((i + 1) as nat, l.len(), f);
            }
            if p.len() > 2 {
                assert(q[2] == texts(p@)[2]);
                return match parse_number(p[2].as_str(), u32::MAX as u64) {
                    Some(n) => Some(n as u32),
                    None => None,
                };
            }
            return None;
        }
        i = i + 1;
    }
    None
}

// ---------------------------------------------------------------------------
// Outcomes of commands
// ---------------------------------------------------------------------------

/// The error of a run of `ip` that did not succeed.
pub open spec fn ip_error(args: Seq<Seq<char>>, stderr: Seq<char>) -> Seq<char> {
    "ip "@ + join(args, " "@) + " failed: "@ + trim(stderr)
}

/// What a run of `ip` came to.
pub fn run_ip(args: &Vec<String>, success: bool, stderr: &str) -> (r: Result<(), String>)
    ensures
        failure(r) == if success {
            None
        } else {
            Some(ip_error(texts(args@), stderr@))
        },
{
    if success {
        return Ok(());
    }
    Err(
        "ip ".to_owned().concat(joined(args, " ").as_str()).concat(" failed: ").concat(
            trimmed(stderr).as_str(),
        ),
    )
}

/// What adding an address came to: that it is there already is no failure.
pub open spec fn add_addr_error(dev: Seq<char>, cidr: Seq<char>, success: bool, stderr: Seq<char>) -> Option<
    Seq<char>,
> {
    if success || occurs(stderr, "File exists"@) || occurs(stderr, "already assigned"@) {
        None
    } else {
        Some("ip addr add "@ + cidr + " dev "@ + dev + " failed: "@ + trim(stderr))
    }
}

/// What adding an address came to.
pub fn add_addr(dev: &str, cidr: &str, success: bool, stderr: &str) -> (r: Result<(), String>)
    ensures
        failure(r) == add_addr_error(dev@, cidr@, success, stderr@),
{
    if success || text::holds(stderr, "File exists") || text::holds(stderr, "already assigned") {
        Ok(())
    } else {
        Err(
            "ip addr add ".to_owned().concat(cidr).concat(" dev ").concat(dev).concat(
                " failed: ",
            ).concat(trimmed(stderr).as_str()),
        )
    }
}

/// What removing a route came to: that it is not there is no failure.
pub fn remove_route(outcome: Result<(), String>) -> (r: Result<(), String>)
    ensures
        failure(r) == match failure(outcome) {
            Some(e) => if occurs(e, "No such process"@) {
                None
            } else {
                Some(e)
            },
            None => None,
        },
{
    match outcome {
        Ok(_) => Ok(()),
        Err(e) => if text::holds(e.as_str(), "No such process") {
            Ok(())
        } else {
            Err(e)
        },
    }
}

/// What a link that has to be there came to.
pub fn require_in_fwd(name: &str, present: bool) -> (r: Result<(), String>)
    ensures
        failure(r) == if present {
            None
        } else {
            Some(
                "Traffic NIC "@ + name@
                    + " is missing from fwd; Network startup preparation is incomplete"@,
            )
        },
{
    if present {
        Ok(())
    } else {
        Err(
            "Traffic NIC ".to_owned().concat(name).concat(
                " is missing from fwd; Network startup preparation is incomplete",
            ),
        )
    }
}

// ---------------------------------------------------------------------------
// What is found
// ---------------------------------------------------------------------------

/// The device of a line is its second word, without the link that it sits on.
pub proof fn law_device_of_a_line(line: Seq<char>, dev: Seq<char>, rest: Seq<char>)
    requires
        words(line).len() > 1,
        !dev.contains('@'),
        words(line)[1] == dev || words(line)[1] == dev + "@"@ + rest,
    ensures
        device_of(line) == dev,
{
    reveal_strlit("@");
    assert("@"@ =~= seq!['@']);
    text::lemma_split_once(dev, '@', rest);
}

/// The address of a line stands behind the first word that announces one.
pub proof fn law_address_of_a_line(line: Seq<char>, i: int)
    requires
        0 <= i,
        i + 1 < words(line).len(),
        words(line)[i] == "inet"@ || words(line)[i] == "inet6"@,
        forall|j: int|
            0 <= j < i ==> #[trigger] words(line)[j] != "inet"@ && words(line)[j] != "inet6"@,
    ensures
        cidr_of(line) == Some(words(line)[i + 1]),
{
    let w = words(line);
    let f = address_word(w);
    assert forall|j: int| 0 <= j < i implies #[trigger] f(j) is None by {
        assert(w[j] != "inet"@ && w[j] != "inet6"@);
    }
    text::lemma_first_some_is(w.len(), f, i);
}

/// The address of every line is found, of one device where one is named.
pub proof fn law_every_address_is_found(lines: Seq<Seq<char>>, dev: Option<Seq<char>>, i: int)
    requires
        0 <= i < lines.len(),
        cidr_of(lines[i]) is Some,
        dev is None || device_of(lines[i]) == dev->0,
    ensures
        addresses_of(lines, dev).contains(cidr_of(lines[i])->0),
    decreases lines.len(),
{
    let found = addresses_of(lines.drop_last(), dev);
    let c = cidr_of(lines[i])->0;
    let all = addresses_of(lines, dev);
    if i < lines.len() - 1 {
        assert(lines.drop_last()[i] == lines[i]);
        law_every_address_is_found(lines.drop_last(), dev, i);
        let e = choose|e: int| 0 <= e < found.len() && found[e] == c;
        assert(all[e] == c);
    } else if found.contains(c) {
        assert(all == found);
    } else {
        assert(all.last() == c);
    }
}

/// No address is found that is on no line of the device, and none twice.
pub proof fn law_no_other_address_is_found(lines: Seq<Seq<char>>, dev: Option<Seq<char>>, e: int)
    requires
        0 <= e < addresses_of(lines, dev).len(),
    ensures
        exists|i: int|
            0 <= i < lines.len() && cidr_of(#[trigger] lines[i]) == Some(addresses_of(lines, dev)[e]) && (dev is None
                || device_of(lines[i]) == dev->0),
        addresses_of(lines, dev).no_duplicates(),
    decreases lines.len(),
{
    let less = lines.drop_last();
    let found = addresses_of(less, dev);
    let all = addresses_of(lines, dev);
    if found.len() > 0 {
        law_no_other_address_is_found(less, dev, 0);
    }
    if e < found.len() {
        law_no_other_address_is_found(less, dev, e);
        let i = choose|i: int|
            0 <= i < less.len() && cidr_of(#[trigger] less[i]) == Some(found[e]) && (dev is None || device_of(less[i])
                == dev->0);
        assert(lines[i] == less[i]);
    } else {
        assert(lines[lines.len() - 1] == lines.last());
    }
}

/// Each NIC has the addresses of the lines that name it.
pub proof fn law_nics_have_their_addresses(names: Seq<Seq<char>>, output: Seq<char>, i: int)
    requires
        0 <= i < names.len(),
        forall|j: int| 0 <= j < i ==> #[trigger] names[j] != names[i],
    ensures
        nic_list(names, output).len() == names.len(),
        nic_list(names, output)[i] == (names[i], addresses_of(lines(output), Some(names[i]))),
{
}

/// Every link with Ethernet framing that is no virtual one is a Traffic NIC, and
/// no other is.
pub proof fn law_traffic_nics(links: Seq<Link>, i: int, e: int)
    ensures
        0 <= i < links.len() && links[i].link_type@ == "ether"@ && links[i].info_kind is None ==> traffic_names(
            links,
        ).contains(links[i].ifname@),
        0 <= e < traffic_names(links).len() ==> exists|k: int|
            0 <= k < links.len() && (#[trigger] links[k]).ifname@ == traffic_names(links)[e] && links[k].link_type@
                == "ether"@ && links[k].info_kind is None,
{
    let f = traffic_name(links);
    if 0 <= i < links.len() && links[i].link_type@ == "ether"@ && links[i].info_kind is None {
        text::lemma_collects(links.len(), f, i);
    }
    if 0 <= e < traffic_names(links).len() {
        text::lemma_collected(links.len(), f, e);
        let k = choose|k: int| 0 <= k < links.len() && #[trigger] f(k) == Some(collect(links.len(), f)[e]);
        assert(links[k].ifname@ == traffic_names(links)[e]);
    }
}

/// Every IPv4 prefix among the words is taken over, and the gateway of a default
/// route through the device.
pub proof fn law_addressing_is_captured(s: Seq<char>, route: Seq<char>, name: Seq<char>, i: int)
    requires
        0 <= i,
    ensures
        i < words(s).len() && words(s)[i].contains('/') && words(s)[i].contains('.') ==> dotted_prefixes(s).contains(
            words(s)[i],
        ),
        occurs(route, name) && i + 1 < words(route).len() && words(route)[i] == "via"@ && (forall|j: int|
            0 <= j < i ==> #[trigger] words(route)[j] != "via"@) ==> gateway_of(route, name) == Some(
            words(route)[i + 1],
        ),
        !occurs(route, name) ==> gateway_of(route, name) is None,
{
    if i < words(s).len() && words(s)[i].contains('/') && words(s)[i].contains('.') {
        text::lemma_collects(words(s).len(), dotted_prefix(words(s)), i);
    }
    let w = words(route);
    if occurs(route, name) && i + 1 < w.len() && w[i] == "via"@ && (forall|j: int|
        0 <= j < i ==> #[trigger] words(route)[j] != "via"@) {
        let f = via_word(w);
        assert forall|j: int| 0 <= j < i implies #[trigger] f(j) is None by {
            assert(words(route)[j] != "via"@);
        }
        text::lemma_first_some_is(w.len(), f, i);
    }
}

/// An address is live where an entry of some link that was reported is that
/// address with that length.
pub proof fn law_live_addresses_are_seen(links: Seq<JsonView>, entries: Seq<JsonView>, i: int, k: int, ip: IpAddr, bits: u64)
    requires
        0 <= i < links.len(),
        links[i].member("addr_info"@) == Some(JsonView::List(entries)),
        0 <= k < entries.len(),
        entries[k].member("prefixlen"@) == Some(JsonView::Natural(bits)),
        entries[k].member("local"@) matches Some(JsonView::Text(t)) && parse(t) == Some(ip),
    ensures
        live_among(JsonView::List(links), ip, bits as nat),
{
    assert(is_live(entries[k], ip, bits as nat));
    match links[i].member("addr_info"@) {
        Some(JsonView::List(l)) => {
            assert(l == entries);
            assert(is_live(l[k], ip, bits as nat));
        },
        _ => {},
    }
    assert(live_on(links[i], ip, bits as nat));
    match JsonView::List(links) {
        JsonView::List(l) => {
            assert(l == links);
            assert(live_on(l[i], ip, bits as nat));
        },
        _ => {},
    }
}

/// Whether a device has an address is answered where both can be read.
pub proof fn law_live_address_is_answered(dev: Seq<char>, a: Seq<char>, n: Seq<char>, ip: IpAddr, bits: nat, v: JsonView)
    requires
        !a.contains('/'),
        parse(a) == Some(ip),
        parse_unsigned(n, 255) == Some(bits),
    ensures
        live_outcome(dev, a + "/"@ + n, Ok(v)) == Ok::<bool, Seq<char>>(live_among(v, ip, bits)),
{
    reveal_strlit("/");
    assert("/"@ =~= seq!['/']);
    text::lemma_split_once(a, '/', n);
}

/// The root of a device is the first discipline that says it is the root.
pub proof fn law_root_is_found(l: Seq<JsonView>, i: int, kind: Seq<char>)
    requires
        0 <= i < l.len(),
        l[i].member("root"@) == Some(JsonView::Bool(true)),
        l[i].member("kind"@) == Some(JsonView::Text(kind)),
        forall|j: int| 0 <= j < i ==> (#[trigger] l[j]).member("root"@) != Some(JsonView::Bool(true)),
    ensures
        root_among(JsonView::List(l)) is Some,
        (root_among(JsonView::List(l))->0).kind == kind,
        l[i].member("options"@) is Some ==> (root_among(JsonView::List(l))->0).options == l[i].member("options"@)->0,
        l[i].member("options"@) is None ==> (root_among(JsonView::List(l))->0).options is Null,
{
    let f = root_entry(l);
    assert forall|j: int| 0 <= j < i implies #[trigger] f(j) is None by {
        assert(l[j].member("root"@) != Some(JsonView::Bool(true)));
    }
    text::lemma_first_some_is(l.len(), f, i);
}

/// A port is read as it is written, with or without white space round it.
pub proof fn law_port_is_read(output: Seq<char>, port: u16)
    requires
        trim(output) == text::decimal(port as nat),
    ensures
        port_of(output) == Some(port),
{
    text::lemma_digits(port as nat, 10);
    let d = text::decimal(port as nat);
    assert(text::is_digit(d[0]));
}

/// The number of the group is the third field of its line.
pub proof fn law_group_is_found(group: Seq<char>, i: int, id: u32)
    requires
        0 <= i < lines(group).len(),
        split(lines(group)[i], ':')[0] == "wheel"@,
        split(lines(group)[i], ':').len() > 2,
        parse_unsigned(split(lines(group)[i], ':')[2], u32::MAX as nat) == Some(id as nat),
        forall|j: int| 0 <= j < i ==> split(#[trigger] lines(group)[j], ':')[0] != "wheel"@,
    ensures
        wheel_of(group) == Some(id),
{
    let l = lines(group);
    let f = wheel_line(l);
    assert forall|j: int| 0 <= j < i implies #[trigger] f(j) is None by {
        assert(split(l[j], ':')[0] != "wheel"@);
    }
    text::lemma_first_some_is(l.len(), f, i);
}

/// That an address is there already is no failure to add it; any other failure
/// is told.
pub proof fn law_present_address_is_no_failure(dev: Seq<char>, cidr: Seq<char>, success: bool, stderr: Seq<char>)
    ensures
        add_addr_error(dev, cidr, success, stderr) is None <==> success || occurs(stderr, "File exists"@) || occurs(
            stderr,
            "already assigned"@,
        ),
        add_addr_error(dev, cidr, false, stderr) matches Some(e) ==> e == "ip addr add "@ + cidr + " dev "@ + dev
            + " failed: "@ + trim(stderr),
{
}

} // verus!
