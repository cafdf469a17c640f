//! The console: what an operator may ask for at it, before the appliance has an
//! owner and after, and what it shows.

use crate::documents::{lossy, lossy_text};
use crate::identity::AuthenticationResult;
use crate::ip;
use crate::ip::{
    link_local_v4, link_local_v6, loopback_v4, octet_of, parse, private_v4, text_of, unique_local_v6, IpAddr,
};
use crate::json::{lemma_list_view, list_view, Json, JsonView};
use crate::text;
use crate::text::{
    add_text, add_texts, before, collect, concat, ends_with, failure, first_white, head, is_text,
    is_white, join, joined, lemma_collected, lemma_collects, lemma_concat_has, lemma_concat_member, lines_text, same, str_opt, text_opt, texts, trim, trimmed, words,
    words_of, write_lines,
};
use crate::web::{show_hostname, shown_hostname};
use vstd::prelude::*;

verus! {

/// The socket of the network daemon.
pub const NETD_SOCK: &'static str = "/var/lib/fwos/netd.sock";

/// The socket of the update daemon.
pub const UPDATE_SOCK: &'static str = "/var/lib/fwos/update.sock";

/// The file that holds the accepted state.
pub const DESIRED: &'static str = "/var/lib/fwos/desired.toml";

/// Which console an appliance has.
#[derive(Clone, Copy, Debug, PartialEq, Eq, Structural)]
pub enum Console {
    /// The one of an appliance without an owner.
    Bootstrap,
    /// The one for administrators.
    Admin,
}

/// Which console an appliance has.
pub fn run(bootstrapped: bool) -> (r: Console)
    ensures
        r == if bootstrapped {
            Console::Admin
        } else {
            Console::Bootstrap
        },
{
    if bootstrapped {
        Console::Admin
    } else {
        Console::Bootstrap
    }
}

// ---------------------------------------------------------------------------
// Lines
// ---------------------------------------------------------------------------

pub open spec fn ends_at(b: Seq<u8>, i: int) -> bool {
    0 <= i < b.len() && (b[i] == 10 || b[i] == 13)
}

/// Whether the first line ends at that place.
pub open spec fn first_end(b: Seq<u8>, i: int) -> bool {
    ends_at(b, i) && forall|j: int| 0 <= j < i ==> !ends_at(b, j)
}

/// The number of bytes of the first line with its end: a carriage return and
/// the line feed behind it are one end.
pub open spec fn line_length(b: Seq<u8>, i: int) -> int {
    if b[i] == 13 && i + 1 < b.len() && b[i + 1] == 10 {
        i + 2
    } else {
        i + 1
    }
}

fn drop_front(b: &Vec<u8>, n: usize) -> (r: Vec<u8>)
    requires
        n <= b@.len(),
    ensures
        r@ == b@.skip(n as int),
{
    let mut out: Vec<u8> = Vec::new();
    let mut i: usize = n;
    while i < b.len()
        invariant
            n <= i <= b@.len(),
            out@ == b@.subrange(n as int, i as int),
        decreases b@.len() - i,
    {
        out.push(b[i]);
        i = i + 1;
    }
    out
}

fn take_front(b: &Vec<u8>, n: usize) -> (r: Vec<u8>)
    requires
        n <= b@.len(),
    ensures
        r@ == b@.take(n as int),
{
    let mut out: Vec<u8> = Vec::new();
    let mut i: usize = 0;
    while i < n
        invariant
            i <= n <= b@.len(),
            out@ == b@.take(i as int),
        decreases n - i,
    {
        out.push(b[i]);
        i = i + 1;
    }
    out
}

/// Takes the first line, where there is a whole one.
pub fn take_line(acc: &mut Vec<u8>) -> (r: Option<String>)
    ensures
        match r {
            Some(s) => exists|i: int| #[trigger]
                first_end(old(acc)@, i) && s@ == lossy_text(old(acc)@.take(i)) && final(acc)@ == old(acc)@.skip(
                    line_length(old(acc)@, i),
                ),
            None => final(acc)@ == old(acc)@ && forall|i: int| !ends_at(old(acc)@, i),
        },
{
    let ghost b = acc@;
    let n: usize = acc.len();
    let mut i: usize = 0;
    while i < n && acc[i] != 10 && acc[i] != 13
        invariant
            b == acc@,
            n == b.len(),
            i <= n,
            forall|j: int| 0 <= j < i ==> !ends_at(b, j),
        decreases n - i,
    {
        i = i + 1;
    }
    if i == n {
        return None;
    }
    let front = take_front(acc, i);
    let line = lossy(front.as_slice());
    let length: usize = if acc[i] == 13 && i < n - 1 && acc[i + 1] == 10 {
        i + 2
    } else {
        i + 1
    };
    *acc = drop_front(acc, length);
    assert(first_end(b, i as int));
    Some(line)
}

// ---------------------------------------------------------------------------
// NICs
// ---------------------------------------------------------------------------

/// A NIC and its addresses.
#[derive(Debug)]
pub struct Nic {
    pub name: String,
    pub addrs: Vec<IpAddr>,
}

#[verifier::ext_equal]
pub struct NicView {
    pub name: Seq<char>,
    pub addrs: Seq<IpAddr>,
}

impl View for Nic {
    type V = NicView;

    open spec fn view(&self) -> NicView {
        NicView { name: self.name@, addrs: self.addrs@ }
    }
}

pub open spec fn nic_views(v: Seq<Nic>) -> Seq<NicView> {
    Seq::new(v.len(), |i: int| v[i]@)
}

/// The NICs, and the one that is chosen.
pub struct NicList {
    pub nics: Vec<Nic>,
    pub opted: Option<String>,
}

#[verifier::ext_equal]
pub struct NicListView {
    pub nics: Seq<NicView>,
    pub opted: Option<Seq<char>>,
}

impl View for NicList {
    type V = NicListView;

    open spec fn view(&self) -> NicListView {
        NicListView { nics: nic_views(self.nics@), opted: text_opt(self.opted) }
    }
}

/// The address of a prefix, where it is one.
pub open spec fn told_address(v: JsonView) -> Option<IpAddr> {
    match v.as_text() {
        Some(s) => parse(before(s, '/')),
        None => None,
    }
}

/// The addresses among the first `n`, each once, in order.
pub open spec fn told_addresses(v: Seq<JsonView>, n: nat) -> Seq<IpAddr>
    decreases n,
{
    if n == 0 {
        Seq::empty()
    } else {
        let found = told_addresses(v, (n - 1) as nat);
        match told_address(v[n - 1]) {
            Some(a) => if found.contains(a) {
                found
            } else {
                found.push(a)
            },
            None => found,
        }
    }
}

/// The addresses that are told of a NIC.
pub open spec fn nic_addresses(v: JsonView) -> Seq<IpAddr> {
    match v.member("addresses"@) {
        Some(JsonView::List(l)) => told_addresses(l, l.len()),
        _ => Seq::empty(),
    }
}

pub open spec fn nic_at(l: Seq<JsonView>) -> spec_fn(int) -> Option<NicView> {
    |i: int|
        match l[i].text_member("name"@) {
            Some(name) => Some(NicView { name, addrs: nic_addresses(l[i]) }),
            None => None,
        }
}

/// The NICs that a reply tells, and the one that is chosen.
pub open spec fn told_list(v: JsonView) -> NicListView {
    NicListView {
        nics: match v.member("nics"@) {
            Some(JsonView::List(l)) => collect(l.len(), nic_at(l)),
            _ => Seq::empty(),
        },
        opted: match v.member("opt"@) {
            Some(o) => o.text_member("nic"@),
            None => None,
        },
    }
}

fn holds_addr(v: &Vec<IpAddr>, a: IpAddr) -> (r: bool)
    ensures
        r == v@.contains(a),
{
    let mut i: usize = 0;
    while i < v.len()
        invariant
            i <= v@.len(),
            forall|j: int| 0 <= j < i ==> v@[j] != a,
        decreases v@.len() - i,
    {
        if v[i] == a {
            assert(v@[i as int] == a);
            return true;
        }
        i = i + 1;
    }
    false
}

fn read_address(v: &Json) -> (r: Option<IpAddr>)
    ensures
        r == told_address(v@),
{
    match v.as_str() {
        Some(s) => ip::read(head(s, '/').as_str()),
        None => None,
    }
}

fn read_addresses(v: &Json) -> (r: Vec<IpAddr>)
    ensures
        r@ == nic_addresses(v@),
{
    let mut out: Vec<IpAddr> = Vec::new();
    if let Some(x) = v.get("addresses") {
        if let Some(l) = x.as_list() {
            proof {
                lemma_list_view(l@);
            }
            let ghost w = list_view(l@);
            let mut i: usize = 0;
            while i < l.len()
                invariant
                    w == list_view(l@),
                    w.len() == l@.len(),
                    forall|j: int| 0 <= j < l@.len() ==> #[trigger] w[j] == l@[j]@,
                    i <= l@.len(),
                    out@ == told_addresses(w, i as nat),
                decreases l@.len() - i,
            {
                assert(w[i as int] == l@[i as int]@);
                if let Some(a) = read_address(&l[i]) {
                    if !holds_addr(&out, a) {
                        out.push(a);
                    }
                }
                i = i + 1;
            }
            return out;
        }
    }
    out
}

/// The NICs that a reply tells, and the one that is chosen.
pub fn parse_nic_list(v: &Json) -> (r: NicList)
    ensures
        r@ == told_list(v@),
{
    let mut nics: Vec<Nic> = Vec::new();
    assert(nic_views(nics@) == Seq::<NicView>::empty());
    if let Some(x) = v.get("nics") {
        if let Some(l) = x.as_list() {
            proof {
                lemma_list_view(l@);
            }
            let ghost w = list_view(l@);
            let ghost f = nic_at(w);
            let mut i: usize = 0;
            while i < l.len()
                invariant
                    w == list_view(l@),
                    w.len() == l@.len(),
                    f == nic_at(w),
                    forall|j: int| 0 <= j < l@.len() ==> #[trigger] w[j] == l@[j]@,
                    i <= l@.len(),
                    nic_views(nics@) == collect(i as nat, f),
                decreases l@.len() - i,
            {
                assert(w[i as int] == l@[i as int]@);
                if let Some(name) = l[i].text_member("name") {
                    let nic = Nic { name: name.to_owned(), addrs: read_addresses(&l[i]) };
                    let ghost before = nics@;
                    nics.push(nic);
                    assert(nic_views(nics@) == nic_views(before).push(nic@));
                }
                i = i + 1;
            }
        }
    }
    let opted = match v.get("opt") {
        Some(o) => match o.text_member("nic") {
            Some(s) => Some(s.to_owned()),
            None => None,
        },
        None => None,
    };
    NicList { nics, opted }
}

/// The NICs that the network daemon tells; none where it does not reply, or
/// says that it could not.
pub fn list_from_netd(reply: &Option<Json>) -> (r: NicList)
    ensures
        r@ == match *reply {
            Some(v) => if v@.bool_member("ok"@) != Some(false) {
                told_list(v@)
            } else {
                NicListView { nics: Seq::empty(), opted: None }
            },
            None => NicListView { nics: Seq::empty(), opted: None },
        },
{
    if let Some(v) = reply {
        let refused = match v.bool_member("ok") {
            Some(b) => !b,
            None => false,
        };
        if !refused {
            return parse_nic_list(v);
        }
    }
    let nics: Vec<Nic> = Vec::new();
    assert(nic_views(nics@) == Seq::<NicView>::empty());
    NicList { nics, opted: None }
}

/// The texts of addresses.
pub open spec fn addr_texts(v: Seq<IpAddr>) -> Seq<Seq<char>> {
    Seq::new(v.len(), |i: int| text_of(v[i]))
}

fn write_addrs(v: &Vec<IpAddr>) -> (r: Vec<String>)
    ensures
        texts(r@) == addr_texts(v@),
{
    let mut out: Vec<String> = Vec::new();
    let mut i: usize = 0;
    while i < v.len()
        invariant
            i <= v@.len(),
            out@.len() == i,
            forall|j: int| 0 <= j < i ==> (#[trigger] out@[j])@ == text_of(v@[j]),
        decreases v@.len() - i,
    {
        out.push(ip::write_ip(v[i]));
        i = i + 1;
    }
    assert(texts(out@) == addr_texts(v@));
    out
}

/// What tells one list of NICs from another.
pub open spec fn key_of(v: Seq<NicView>) -> Seq<char> {
    join(
        Seq::new(v.len(), |i: int| v[i].name + "="@ + join(addr_texts(v[i].addrs), ","@)),
        ";"@,
    )
}

/// What tells one list of NICs from another.
pub fn nics_key(v: &Vec<Nic>) -> (r: String)
    ensures
        r@ == key_of(nic_views(v@)),
{
    let mut out: Vec<String> = Vec::new();
    let mut i: usize = 0;
    while i < v.len()
        invariant
            i <= v@.len(),
            out@.len() == i,
            forall|j: int|
                0 <= j < i ==> (#[trigger] out@[j])@ == v@[j].name@ + "="@ + join(
                    addr_texts(v@[j].addrs@),
                    ","@,
                ),
        decreases v@.len() - i,
    {
        let addrs = joined(&write_addrs(&v[i].addrs), ",");
        out.push(v[i].name.clone().concat("=").concat(addrs.as_str()));
        i = i + 1;
    }
    proof {
        let w = nic_views(v@);
        assert(texts(out@) == Seq::new(
            w.len(),
            |i: int| w[i].name + "="@ + join(addr_texts(w[i].addrs), ","@),
        ));
    }
    joined(&out, ";")
}

/// Whether the web interface can be reached at an address: a private or
/// link-local one, and none that a provider shares among customers.
pub open spec fn is_reachable(a: IpAddr) -> bool {
    match a {
        IpAddr::V4(x) => !loopback_v4(x) && !(octet_of(x, 0) == 100 && 64 <= octet_of(x, 1) <= 127) && (
        private_v4(x) || link_local_v4(x)),
        IpAddr::V6(x) => x != 1 && (link_local_v6(x) || unique_local_v6(x)),
    }
}

/// Whether the web interface can be reached at an address.
pub fn ui_reachable(a: IpAddr) -> (r: bool)
    ensures
        r == is_reachable(a),
{
    match a {
        IpAddr::V4(x) => {
            let p: u32 = x / 0x100_0000;
            let q: u32 = x / 0x1_0000 % 0x100;
            !ip::is_loopback_v4(x) && !(p == 100 && 64 <= q && q <= 127) && (ip::is_private_v4(x)
                || ip::is_link_local_v4(x))
        },
        IpAddr::V6(x) => x != 1 && (ip::is_link_local_v6(x) || ip::is_unique_local_v6(x)),
    }
}

/// Where the web interface is at an address of a NIC, if it can be reached
/// there.
pub open spec fn url_of(nic: Seq<char>, a: IpAddr) -> Option<Seq<char>> {
    if !is_reachable(a) {
        None
    } else {
        match a {
            IpAddr::V4(x) => Some("https://"@ + text_of(a) + "/"@),
            IpAddr::V6(x) => if link_local_v6(x) {
                Some("https://["@ + text_of(a) + "%"@ + nic + "]/"@)
            } else {
                Some("https://["@ + text_of(a) + "]/"@)
            },
        }
    }
}

/// Where the web interface is at an address of a NIC.
pub fn ui_url(nic: &str, a: IpAddr) -> (r: Option<String>)
    ensures
        text_opt(r) == url_of(nic@, a),
{
    if !ui_reachable(a) {
        return None;
    }
    let s = ip::write_ip(a);
    match a {
        IpAddr::V4(_) => Some("https://".to_owned().concat(s.as_str()).concat("/")),
        IpAddr::V6(x) => if ip::is_link_local_v6(x) {
            Some("https://[".to_owned().concat(s.as_str()).concat("%").concat(nic).concat("]/"))
        } else {
            Some("https://[".to_owned().concat(s.as_str()).concat("]/"))
        },
    }
}

// ---------------------------------------------------------------------------
// Without an owner
// ---------------------------------------------------------------------------

pub open spec fn nic_line(n: NicView) -> Seq<char> {
    let addrs = join(addr_texts(n.addrs), " "@);
    if addrs.len() == 0 {
        "  "@ + n.name
    } else {
        "  "@ + n.name + "  "@ + addrs
    }
}

pub open spec fn url_line(n: NicView) -> spec_fn(int) -> Option<Seq<char>> {
    |k: int|
        match url_of(n.name, n.addrs[k]) {
            Some(u) => Some("  "@ + u),
            None => None,
        }
}

/// The places of the web interface at one NIC: none but the chosen one has
/// any.
pub open spec fn urls_at(l: NicListView) -> spec_fn(int) -> Seq<Seq<char>> {
    |i: int|
        if l.opted == Some(l.nics[i].name) {
            collect(l.nics[i].addrs.len(), url_line(l.nics[i]))
        } else {
            Seq::empty()
        }
}

pub open spec fn url_lines(l: NicListView) -> Seq<Seq<char>> {
    concat(l.nics.len(), urls_at(l))
}

pub open spec fn or_line(lines: Seq<Seq<char>>, other: Seq<char>) -> Seq<Seq<char>> {
    if lines.len() == 0 {
        seq![other]
    } else {
        lines
    }
}

/// What the console of an appliance without an owner shows.
pub open spec fn status_lines(l: NicListView) -> Seq<Seq<char>> {
    seq!["FWOS Bootstrap console"@, "NICs:"@] + or_line(
        Seq::new(l.nics.len(), |i: int| nic_line(l.nics[i])),
        "  (none)"@,
    ) + seq!["Reach the UI:"@] + or_line(
        url_lines(l),
        "  (set ephemeral addressing: static, dhcp, or slaac)"@,
    )
}

fn nic_text(n: &Nic) -> (r: String)
    ensures
        r@ == nic_line(n@),
{
    let addrs = joined(&write_addrs(&n.addrs), " ");
    let s = "  ".to_owned().concat(n.name.as_str());
    if addrs.as_str().is_empty() {
        s
    } else {
        s.concat("  ").concat(addrs.as_str())
    }
}

fn urls_of(n: &Nic) -> (r: Vec<String>)
    ensures
        texts(r@) == collect(n.addrs@.len(), url_line(n@)),
{
    let ghost f = url_line(n@);
    let mut out: Vec<String> = Vec::new();
    assert(texts(out@) == collect(0, f));
    let mut k: usize = 0;
    while k < n.addrs.len()
        invariant
            f == url_line(n@),
            k <= n.addrs@.len(),
            texts(out@) == collect(k as nat, f),
        decreases n.addrs@.len() - k,
    {
        if let Some(u) = ui_url(n.name.as_str(), n.addrs[k]) {
            add_text(&mut out, "  ".to_owned().concat(u.as_str()));
        }
        k = k + 1;
    }
    out
}

fn all_urls(l: &NicList) -> (r: Vec<String>)
    ensures
        texts(r@) == url_lines(l@),
{
    let ghost f = urls_at(l@);
    let mut out: Vec<String> = Vec::new();
    assert(texts(out@) == concat(0, f));
    let mut i: usize = 0;
    while i < l.nics.len()
        invariant
            f == urls_at(l@),
            i <= l.nics@.len(),
            texts(out@) == concat(i as nat, f),
        decreases l.nics@.len() - i,
    {
        assert(l@.nics[i as int] == l.nics@[i as int]@);
        if is_text(&l.opted, l.nics[i].name.as_str()) {
            let urls = urls_of(&l.nics[i]);
            add_texts(&mut out, &urls);
        } else {
            assert(texts(out@) + Seq::<Seq<char>>::empty() == texts(out@));
        }
        i = i + 1;
    }
    out
}

fn all_nics(v: &Vec<Nic>) -> (r: Vec<String>)
    ensures
        texts(r@) == Seq::new(v@.len(), |i: int| nic_line(nic_views(v@)[i])),
{
    let mut out: Vec<String> = Vec::new();
    let mut i: usize = 0;
    while i < v.len()
        invariant
            i <= v@.len(),
            out@.len() == i,
            forall|j: int| 0 <= j < i ==> (#[trigger] out@[j])@ == nic_line(v@[j]@),
        decreases v@.len() - i,
    {
        out.push(nic_text(&v[i]));
        i = i + 1;
    }
    assert(texts(out@) == Seq::new(v@.len(), |i: int| nic_line(nic_views(v@)[i])));
    out
}

/// What the console of an appliance without an owner shows.
pub fn print_status(l: &NicList) -> (r: String)
    ensures
        r@ == lines_text(status_lines(l@)),
{
    let mut out = vec!["FWOS Bootstrap console".to_owned(), "NICs:".to_owned()];
    let mut nics = all_nics(&l.nics);
    if nics.len() == 0 {
        add_text(&mut nics, "  (none)".to_owned());
    }
    let ghost shown = texts(nics@);
    assert(shown == or_line(Seq::new(l@.nics.len(), |i: int| nic_line(l@.nics[i])), "  (none)"@));
    let mut urls = all_urls(l);
    if urls.len() == 0 {
        add_text(
            &mut urls,
            "  (set ephemeral addressing: static, dhcp, or slaac)".to_owned(),
        );
    }
    let ghost reach = texts(urls@);
    assert(reach == or_line(
        url_lines(l@),
        "  (set ephemeral addressing: static, dhcp, or slaac)"@,
    ));
    assert(texts(out@) == seq!["FWOS Bootstrap console"@, "NICs:"@]);
    add_texts(&mut out, &nics);
    add_text(&mut out, "Reach the UI:".to_owned());
    add_texts(&mut out, &urls);
    assert(texts(out@) == status_lines(l@));
    write_lines(&out)
}

/// The commands of the console of an appliance without an owner.
pub const HELP: &'static str = "static <nic> <cidr>  ephemeral IPv4/IPv6\ndhcp <nic>            ephemeral DHCPv4\nslaac <nic>           ephemeral IPv6 RA\nupdate <image>\nstatus\n";

/// What the console of an appliance without an owner is told to do.
pub enum BootCommand {
    /// Show how it is.
    Status,
    /// Show that.
    Say(String),
    /// Make a first-boot choice, and show how it is then.
    Choose(Json),
    /// Send a request to a daemon, and show the reply.
    Ask(&'static str, Json),
}

pub enum BootCommandView {
    Status,
    Say(Seq<char>),
    Choose(JsonView),
    Ask(Seq<char>, JsonView),
}

impl View for BootCommand {
    type V = BootCommandView;

    open spec fn view(&self) -> BootCommandView {
        match self {
            BootCommand::Status => BootCommandView::Status,
            BootCommand::Say(s) => BootCommandView::Say(s@),
            BootCommand::Choose(v) => BootCommandView::Choose(v@),
            BootCommand::Ask(s, v) => BootCommandView::Ask(s@, v@),
        }
    }
}

/// The request for a first-boot choice.
pub open spec fn opt_request(mode: Seq<char>, nic: Seq<char>, cidr: Option<Seq<char>>) -> JsonView {
    let base = JsonView::object().with("op"@, JsonView::Text("opt"@)).with("nic"@, JsonView::Text(nic)).with(
        "mode"@,
        JsonView::Text(mode),
    );
    match cidr {
        Some(c) => base.with("cidr"@, JsonView::Text(c)),
        None => base,
    }
}

/// The request for a first-boot choice.
pub fn netd_opt(mode: &str, nic: &str, cidr: Option<&str>) -> (r: Json)
    ensures
        r@ == opt_request(mode@, nic@, str_opt(cidr)),
{
    let base = Json::object().with("op", Json::text("opt")).with("nic", Json::text(nic)).with(
        "mode",
        Json::text(mode),
    );
    match cidr {
        Some(c) => base.with("cidr", Json::text(c)),
        None => base,
    }
}

/// What a reply to a first-boot choice says went wrong, if anything.
pub fn opt_outcome(reply: &Json) -> (r: Result<(), String>)
    ensures
        failure(r) == if reply@.bool_member("ok"@) == Some(true) {
            None
        } else {
            Some(
                match reply@.text_member("error"@) {
                    Some(e) => e,
                    None => "opt failed"@,
                },
            )
        },
{
    if crate::update::reply_ok(reply) {
        return Ok(());
    }
    match reply.text_member("error") {
        Some(e) => Err(e.to_owned()),
        None => Err("opt failed".to_owned()),
    }
}

/// The request to stage an image.
pub open spec fn stage_request(image: Seq<char>) -> JsonView {
    JsonView::object().with("op"@, JsonView::Text("stage"@)).with("image"@, JsonView::Text(image))
}

/// The request to stage an image, or how it is asked for.
pub fn update_client(image: &str) -> (r: Result<Json, String>)
    ensures
        match r {
            Ok(v) => image@.len() > 0 && v@ == stage_request(image@),
            Err(e) => image@.len() == 0 && e@ == "usage: update <image>"@,
        },
{
    if image.is_empty() {
        return Err("usage: update <image>".to_owned());
    }
    Ok(Json::object().with("op", Json::text("stage")).with("image", Json::text(image)))
}

/// What is done about a line at the console of an appliance without an owner,
/// or what is wrong with it.
pub open spec fn boot_command(line: Seq<char>) -> Result<BootCommandView, Seq<char>> {
    let w = words(line);
    if w.len() == 0 || w[0] == "status"@ {
        Ok(BootCommandView::Status)
    } else if w[0] == "help"@ {
        Ok(BootCommandView::Say(HELP@))
    } else if w[0] == "static"@ {
        if w.len() < 3 {
            Err("usage: static <nic> <cidr>"@)
        } else {
            Ok(BootCommandView::Choose(opt_request("static"@, w[1], Some(w[2]))))
        }
    } else if w[0] == "dhcp"@ {
        if w.len() < 2 {
            Err("usage: dhcp <nic>"@)
        } else {
            Ok(BootCommandView::Choose(opt_request("dhcp"@, w[1], None)))
        }
    } else if w[0] == "slaac"@ {
        if w.len() < 2 {
            Err("usage: slaac <nic>"@)
        } else {
            Ok(BootCommandView::Choose(opt_request("slaac"@, w[1], None)))
        }
    } else if w[0] == "apply"@ {
        Err("Bootstrap console sets ephemeral addressing, not Desired state"@)
    } else if w[0] == "update"@ {
        if w.len() < 2 {
            Ok(BootCommandView::Say("usage: update <image>"@ + "\n"@))
        } else {
            Ok(BootCommandView::Ask(UPDATE_SOCK@, stage_request(w[1])))
        }
    } else {
        Ok(BootCommandView::Say("unknown command\n"@))
    }
}

proof fn lemma_words_not_empty(s: Seq<char>)
    ensures
        forall|i: int| 0 <= i < words(s).len() ==> (#[trigger] words(s)[i]).len() > 0,
    decreases s.len(),
{
    let t = text::trim_start(s);
    let n = first_white(t);
    if !(t.len() == 0 || t.len() > s.len() || n == 0 || n > t.len()) {
        lemma_words_not_empty(t.skip(n as int));
        assert forall|i: int| 0 <= i < words(s).len() implies (#[trigger] words(s)[i]).len() > 0 by {
            if i > 0 {
                assert(words(s)[i] == words(t.skip(n as int))[i - 1]);
            }
        }
    }
}

/// What is done about a line at the console of an appliance without an owner.
pub fn handle(line: &str) -> (r: Result<BootCommand, String>)
    ensures
        match r {
            Ok(c) => boot_command(line@) == Ok::<BootCommandView, Seq<char>>(c@),
            Err(e) => boot_command(line@) == Err::<BootCommandView, Seq<char>>(e@),
        },
{
    let w = words_of(line);
    let ghost t = texts(w@);
    proof {
        assert(forall|i: int| 0 <= i < w@.len() ==> #[trigger] t[i] == w@[i]@);
        lemma_words_not_empty(line@);
    }
    if w.len() == 0 {
        return Ok(BootCommand::Status);
    }
    assert(t[0] == w@[0]@);
    let cmd = w[0].as_str();
    if same(cmd, "status") {
        Ok(BootCommand::Status)
    } else if same(cmd, "help") {
        Ok(BootCommand::Say(HELP.to_owned()))
    } else if same(cmd, "static") {
        if w.len() < 3 {
            return Err("usage: static <nic> <cidr>".to_owned());
        }
        assert(t[1] == w@[1]@ && t[2] == w@[2]@);
        Ok(BootCommand::Choose(netd_opt("static", w[1].as_str(), Some(w[2].as_str()))))
    } else if same(cmd, "dhcp") {
        if w.len() < 2 {
            return Err("usage: dhcp <nic>".to_owned());
        }
        assert(t[1] == w@[1]@);
        Ok(BootCommand::Choose(netd_opt("dhcp", w[1].as_str(), None)))
    } else if same(cmd, "slaac") {
        if w.len() < 2 {
            return Err("usage: slaac <nic>".to_owned());
        }
        assert(t[1] == w@[1]@);
        Ok(BootCommand::Choose(netd_opt("slaac", w[1].as_str(), None)))
    } else if same(cmd, "apply") {
        Err("Bootstrap console sets ephemeral addressing, not Desired state".to_owned())
    } else if same(cmd, "update") {
        let image = if w.len() < 2 {
            ""
        } else {
            assert(t[1] == w@[1]@);
            w[1].as_str()
        };
        proof {
            reveal_strlit("");
            if t.len() >= 2 {
                assert(words(line@)[1].len() > 0);
            }
        }
        match update_client(image) {
            Ok(v) => Ok(BootCommand::Ask(UPDATE_SOCK, v)),
            Err(e) => Ok(BootCommand::Say(e.concat("\n"))),
        }
    } else {
        Ok(BootCommand::Say("unknown command\n".to_owned()))
    }
}

/// What is done while nothing is typed.
#[derive(Clone, Copy, Debug, PartialEq, Eq, Structural)]
pub enum Idle {
    /// The appliance has an owner: the other console takes over.
    Switch,
    /// The NICs have changed: show how it is.
    Show,
    Wait,
}

/// What is done while nothing is typed: NICs that vanish all at once are being
/// placed, which is not shown.
pub fn idle(bootstrapped: bool, key: &str, now: &str) -> (r: Idle)
    ensures
        r == if bootstrapped {
            Idle::Switch
        } else if now@ != key@ && !(now@.len() == 0 && key@.len() > 0) {
            Idle::Show
        } else {
            Idle::Wait
        },
{
    if bootstrapped {
        Idle::Switch
    } else if !same(now, key) && !(now.is_empty() && !key.is_empty()) {
        Idle::Show
    } else {
        Idle::Wait
    }
}

// ---------------------------------------------------------------------------
// Administrators
// ---------------------------------------------------------------------------

/// What a login at the console comes to.
pub enum LoginAnswer {
    /// The session begins.
    Enter,
    Say(&'static str),
}

/// What a login at the console comes to: `authorized` says whether who was
/// authenticated is an administrator.
pub fn admin_login(result: &AuthenticationResult, authorized: bool) -> (r: LoginAnswer)
    ensures
        r is Enter <==> result@ is Authenticated && authorized,
        r matches LoginAnswer::Say(s) ==> s@ == if result@ is Challenge {
            "additional authentication required; console login unavailable\n"@
        } else {
            "login failed\n"@
        },
{
    match result {
        AuthenticationResult::Authenticated(_) => if authorized {
            LoginAnswer::Enter
        } else {
            LoginAnswer::Say("login failed\n")
        },
        AuthenticationResult::Challenge(_) => LoginAnswer::Say(
            "additional authentication required; console login unavailable\n",
        ),
        AuthenticationResult::Denied => LoginAnswer::Say("login failed\n"),
    }
}

/// The commands of the console for administrators.
pub const ADMIN_HELP: &'static str = "status\nshow\napply <json|toml|path>\nupdate <image>\nreboot\nrollback\nhelp\nlogout\n";

/// What the console for administrators is told to do.
pub enum AdminCommand {
    /// Show how the appliance is.
    Status,
    /// Show that.
    Say(String),
    /// End the session.
    Logout,
    /// End the session of someone who is no longer an administrator.
    Expired,
    /// Show a file.
    Show(&'static str),
    /// Apply the state that is given, or that a file holds.
    Apply(String),
    /// Send a request to a daemon, and show the reply.
    Ask(&'static str, Json),
}

pub enum AdminCommandView {
    Status,
    Say(Seq<char>),
    Logout,
    Expired,
    Show(Seq<char>),
    Apply(Seq<char>),
    Ask(Seq<char>, JsonView),
}

impl View for AdminCommand {
    type V = AdminCommandView;

    open spec fn view(&self) -> AdminCommandView {
        match self {
            AdminCommand::Status => AdminCommandView::Status,
            AdminCommand::Say(s) => AdminCommandView::Say(s@),
            AdminCommand::Logout => AdminCommandView::Logout,
            AdminCommand::Expired => AdminCommandView::Expired,
            AdminCommand::Show(s) => AdminCommandView::Show(s@),
            AdminCommand::Apply(s) => AdminCommandView::Apply(s@),
            AdminCommand::Ask(s, v) => AdminCommandView::Ask(s@, v@),
        }
    }
}

/// The first word of a line, and what stands behind it.
pub open spec fn command_of(line: Seq<char>) -> (Seq<char>, Seq<char>) {
    let t = trim(line);
    let n = first_white(t) as int;
    if n < t.len() {
        (t.take(n), trim(t.skip(n + 1)))
    } else {
        (t, ""@)
    }
}

fn split_command(line: &str) -> (r: (String, String))
    ensures
        (r.0@, r.1@) == command_of(line@),
{
    let t = trimmed(line);
    let v = text::chars_of(t.as_str());
    let mut i: usize = 0;
    while i < v.len() && !text::white(v[i])
        invariant
            v@ == t@,
            i <= v@.len(),
            forall|j: int| 0 <= j < i ==> !is_white(v@[j]),
        decreases v@.len() - i,
    {
        i = i + 1;
    }
    proof {
        text::lemma_first_white(v@, i as int);
    }
    if i < v.len() {
        let cmd = text::slice_text(&v, 0, i);
        let rest = text::slice_text(&v, i + 1, v.len());
        assert(cmd@ == t@.take(i as int));
        assert(rest@ == t@.skip(i + 1));
        (cmd, trimmed(rest.as_str()))
    } else {
        (t, "".to_owned())
    }
}

/// A request that only says what to do.
pub open spec fn bare_request(op: Seq<char>) -> JsonView {
    JsonView::object().with("op"@, JsonView::Text(op))
}

fn ask_update(op: &str) -> (r: AdminCommand)
    ensures
        r@ == AdminCommandView::Ask(UPDATE_SOCK@, bare_request(op@)),
{
    AdminCommand::Ask(UPDATE_SOCK, Json::object().with("op", Json::text(op)))
}

/// What is done about a line of an administrator.
pub open spec fn admin_command(line: Seq<char>) -> AdminCommandView {
    let (cmd, rest) = command_of(line);
    if cmd == ""@ || cmd == "status"@ {
        AdminCommandView::Status
    } else if cmd == "help"@ {
        AdminCommandView::Say(ADMIN_HELP@)
    } else if cmd == "logout"@ {
        AdminCommandView::Logout
    } else if cmd == "show"@ {
        AdminCommandView::Show(DESIRED@)
    } else if cmd == "apply"@ {
        if rest.len() == 0 {
            AdminCommandView::Say("usage: apply <json|toml|path>\n"@)
        } else {
            AdminCommandView::Apply(rest)
        }
    } else if cmd == "update"@ {
        if rest.len() == 0 {
            AdminCommandView::Say("usage: update <image>"@ + "\n"@)
        } else {
            AdminCommandView::Ask(UPDATE_SOCK@, stage_request(rest))
        }
    } else if cmd == "reboot"@ {
        AdminCommandView::Ask(UPDATE_SOCK@, bare_request("reboot"@))
    } else if cmd == "rollback"@ {
        AdminCommandView::Ask(UPDATE_SOCK@, bare_request("rollback"@))
    } else {
        AdminCommandView::Say("unknown command\n"@)
    }
}

/// What is done about a line of an administrator.
pub fn admin_handle(line: &str) -> (r: AdminCommand)
    ensures
        r@ == admin_command(line@),
{
    let (cmd, rest) = split_command(line);
    let cmd = cmd.as_str();
    if same(cmd, "") || same(cmd, "status") {
        AdminCommand::Status
    } else if same(cmd, "help") {
        AdminCommand::Say(ADMIN_HELP.to_owned())
    } else if same(cmd, "logout") {
        AdminCommand::Logout
    } else if same(cmd, "show") {
        AdminCommand::Show(DESIRED)
    } else if same(cmd, "apply") {
        if rest.as_str().is_empty() {
            AdminCommand::Say("usage: apply <json|toml|path>\n".to_owned())
        } else {
            AdminCommand::Apply(rest)
        }
    } else if same(cmd, "update") {
        match update_client(rest.as_str()) {
            Ok(v) => AdminCommand::Ask(UPDATE_SOCK, v),
            Err(e) => AdminCommand::Say(e.concat("\n")),
        }
    } else if same(cmd, "reboot") {
        ask_update("reboot")
    } else if same(cmd, "rollback") {
        ask_update("rollback")
    } else {
        AdminCommand::Say("unknown command\n".to_owned())
    }
}

/// What is done about a line of someone who was an administrator when their
/// session began: `authorized` says whether they still are.
pub fn session_command(authorized: bool, line: &str) -> (r: AdminCommand)
    ensures
        r@ == if authorized {
            admin_command(line@)
        } else {
            AdminCommandView::Expired
        },
{
    if authorized {
        admin_handle(line)
    } else {
        AdminCommand::Expired
    }
}

/// Whether what is to be applied is the content of a file: what begins with a
/// slash is, and what names one that is there.
pub fn apply_source(rest: &str, is_file: bool) -> (r: bool)
    ensures
        r == (text::starts_with(rest@, "/"@) || is_file),
{
    text::begins(rest, "/") || is_file
}

/// The request to apply what a source holds: where it is sent to, and what.
pub fn apply_desired(raw: &str) -> (r: Result<(&'static str, String), String>)
    ensures
        match r {
            Ok((socket, body)) => {
                &&& socket@ == NETD_SOCK@
                &&& text::starts_with(text::trim_start(raw@), "{"@) ==> body@ == raw@
                &&& !text::starts_with(text::trim_start(raw@), "{"@) ==> (
                crate::documents::toml_document(raw@) matches Ok(v) && body@ == crate::json::json_text(v))
            },
            Err(e) => !text::starts_with(text::trim_start(raw@), "{"@) && (
            crate::documents::toml_document(raw@) matches Err(x) && e@ == "parse TOML Desired state: "@ + x),
        },
{
    match crate::documents::to_json(raw) {
        Ok(body) => Ok((NETD_SOCK, body)),
        Err(e) => Err(e),
    }
}

/// What is shown of a reply: it ends with a line end.
pub open spec fn shown(r: Result<Seq<char>, Seq<char>>) -> Seq<char> {
    match r {
        Ok(s) => if ends_with(s, "\n"@) {
            s
        } else {
            s + "\n"@
        },
        Err(e) => e + "\n"@,
    }
}

/// What is shown of a reply.
pub fn write_cmd(result: &Result<String, String>) -> (r: String)
    ensures
        r@ == shown(
            match *result {
                Ok(s) => Ok(s@),
                Err(e) => Err(e@),
            },
        ),
{
    match result {
        Ok(s) => if text::ends(s.as_str(), "\n") {
            s.clone()
        } else {
            s.clone().concat("\n")
        },
        Err(e) => e.clone().concat("\n"),
    }
}

/// What is seen of an appliance that has an owner.
pub struct AdminFacts {
    /// What the file of the hostname holds.
    pub hostname: Option<String>,
    /// The state that is kept, or null.
    pub desired: Json,
    pub bootstrapped: bool,
    pub fwd: bool,
    pub mgmt: bool,
    pub netd: bool,
    /// What the update daemon tells, or null.
    pub update: Json,
}

pub open spec fn hostname_lines(f: AdminFacts) -> Seq<Seq<char>> {
    match shown_hostname(text_opt(f.hostname), f.desired@) {
        Some(h) => seq!["hostname: "@ + h],
        None => Seq::empty(),
    }
}

/// What is shown of an interface.
pub open spec fn role_line(i: JsonView) -> Seq<char> {
    let name = match i.text_member("name"@) {
        Some(s) => s,
        None => "?"@,
    };
    match i.text_member("role"@) {
        Some(role) => if role.len() > 0 {
            "  "@ + name + "  "@ + role
        } else {
            "  "@ + name
        },
        None => "  "@ + name,
    }
}

pub open spec fn iface_lines(desired: JsonView) -> Seq<Seq<char>> {
    match desired.member("interfaces"@) {
        Some(JsonView::List(l)) => seq!["NICs:"@] + Seq::new(l.len(), |i: int| role_line(l[i])),
        _ => Seq::empty(),
    }
}

pub open spec fn text_at(l: Seq<JsonView>) -> spec_fn(int) -> Option<Seq<char>> {
    |i: int| l[i].as_text()
}

pub open spec fn exposure_lines(desired: JsonView) -> Seq<Seq<char>> {
    match desired.member("ui_exposure"@) {
        Some(JsonView::List(l)) => {
            let names = collect(l.len(), text_at(l));
            if names.len() > 0 {
                seq!["UI exposure: "@ + join(names, " "@)]
            } else {
                Seq::empty()
            }
        },
        _ => Seq::empty(),
    }
}

pub open spec fn yes_or_no(b: bool) -> Seq<char> {
    if b {
        "yes"@
    } else {
        "no"@
    }
}

pub open spec fn image_line(update: JsonView, key: Seq<char>) -> Seq<Seq<char>> {
    match update.text_member(key) {
        Some(s) => if s.len() > 0 {
            seq![key + ": "@ + s]
        } else {
            Seq::empty()
        },
        None => Seq::empty(),
    }
}

/// What the console for administrators shows.
pub open spec fn admin_lines(f: AdminFacts) -> Seq<Seq<char>> {
    seq!["FWOS Appliance CLI"@] + hostname_lines(f) + (if f.bootstrapped {
        seq!["bootstrapped"@]
    } else {
        Seq::empty()
    }) + iface_lines(f.desired@) + exposure_lines(f.desired@) + seq![
        "fwd: "@ + yes_or_no(f.fwd),
        "mgmt: "@ + yes_or_no(f.mgmt),
        "netd: "@ + (if f.netd {
            "running"@
        } else {
            "down"@
        }),
    ] + image_line(f.update@, "booted"@) + image_line(f.update@, "staged"@) + image_line(
        f.update@,
        "rollback"@,
    )
}

fn iface_text(i: &Json) -> (r: String)
    ensures
        r@ == role_line(i@),
{
    let name = match i.text_member("name") {
        Some(s) => s,
        None => "?",
    };
    let s = "  ".to_owned().concat(name);
    match i.text_member("role") {
        Some(role) => if role.is_empty() {
            s
        } else {
            s.concat("  ").concat(role)
        },
        None => s,
    }
}

fn ifaces_text(desired: &Json) -> (r: Vec<String>)
    ensures
        texts(r@) == iface_lines(desired@),
{
    let mut out: Vec<String> = Vec::new();
    assert(texts(out@) == Seq::<Seq<char>>::empty());
    if let Some(v) = desired.get("interfaces") {
        if let Some(l) = v.as_list() {
            proof {
                lemma_list_view(l@);
            }
            let ghost w = list_view(l@);
            add_text(&mut out, "NICs:".to_owned());
            let mut i: usize = 0;
            while i < l.len()
                invariant
                    w == list_view(l@),
                    w.len() == l@.len(),
                    forall|j: int| 0 <= j < l@.len() ==> #[trigger] w[j] == l@[j]@,
                    i <= l@.len(),
                    out@.len() == i + 1,
                    out@[0]@ == "NICs:"@,
                    forall|j: int| 0 < j <= i ==> (#[trigger] out@[j])@ == role_line(w[j - 1]),
                decreases l@.len() - i,
            {
                assert(w[i as int] == l@[i as int]@);
                out.push(iface_text(&l[i]));
                i = i + 1;
            }
            assert(texts(out@) == seq!["NICs:"@] + Seq::new(w.len(), |i: int| role_line(w[i])));
            return out;
        }
    }
    out
}

fn exposure_text(desired: &Json) -> (r: Vec<String>)
    ensures
        texts(r@) == exposure_lines(desired@),
{
    let mut out: Vec<String> = Vec::new();
    assert(texts(out@) == Seq::<Seq<char>>::empty());
    if let Some(v) = desired.get("ui_exposure") {
        if let Some(l) = v.as_list() {
            proof {
                lemma_list_view(l@);
            }
            let ghost w = list_view(l@);
            let ghost f = text_at(w);
            let mut names: Vec<String> = Vec::new();
            assert(texts(names@) == collect(0, f));
            let mut i: usize = 0;
            while i < l.len()
                invariant
                    w == list_view(l@),
                    w.len() == l@.len(),
                    f == text_at(w),
                    forall|j: int| 0 <= j < l@.len() ==> #[trigger] w[j] == l@[j]@,
                    i <= l@.len(),
                    texts(names@) == collect(i as nat, f),
                decreases l@.len() - i,
            {
                assert(w[i as int] == l@[i as int]@);
                if let Some(s) = l[i].as_str() {
                    add_text(&mut names, s.to_owned());
                }
                i = i + 1;
            }
            if names.len() > 0 {
                let all = joined(&names, " ");
                add_text(&mut out, "UI exposure: ".to_owned().concat(all.as_str()));
                assert(texts(out@) == exposure_lines(desired@));
            }
        }
    }
    out
}

fn add_image(out: &mut Vec<String>, update: &Json, key: &str)
    ensures
        texts(final(out)@) == texts(old(out)@) + image_line(update@, key@),
{
    if let Some(s) = update.text_member(key) {
        if !s.is_empty() {
            add_text(out, key.to_owned().concat(": ").concat(s));
            assert(texts(out@) == texts(old(out)@) + image_line(update@, key@));
            return;
        }
    }
    assert(texts(out@) == texts(old(out)@) + image_line(update@, key@));
}

fn yes_no(b: bool) -> (r: &'static str)
    ensures
        r@ == yes_or_no(b),
{
    if b {
        "yes"
    } else {
        "no"
    }
}

/// What the console for administrators shows.
pub fn print_admin_status(f: &AdminFacts) -> (r: String)
    ensures
        r@ == lines_text(admin_lines(*f)),
{
    let mut out = vec!["FWOS Appliance CLI".to_owned()];
    let ghost l0 = seq!["FWOS Appliance CLI"@];
    assert(texts(out@) == l0);
    if let Some(h) = show_hostname(&f.hostname, &f.desired) {
        add_text(&mut out, "hostname: ".to_owned().concat(h.as_str()));
    }
    let ghost l1 = l0 + hostname_lines(*f);
    assert(texts(out@) == l1);
    if f.bootstrapped {
        add_text(&mut out, "bootstrapped".to_owned());
    }
    let ghost l2 = l1 + (if f.bootstrapped {
        seq!["bootstrapped"@]
    } else {
        Seq::empty()
    });
    assert(texts(out@) == l2);
    let ifaces = ifaces_text(&f.desired);
    add_texts(&mut out, &ifaces);
    let exposure = exposure_text(&f.desired);
    add_texts(&mut out, &exposure);
    let ghost l3 = l2 + iface_lines(f.desired@) + exposure_lines(f.desired@);
    assert(texts(out@) == l3);
    add_text(&mut out, "fwd: ".to_owned().concat(yes_no(f.fwd)));
    add_text(&mut out, "mgmt: ".to_owned().concat(yes_no(f.mgmt)));
    let netd = if f.netd {
        "running"
    } else {
        "down"
    };
    add_text(&mut out, "netd: ".to_owned().concat(netd));
    let ghost l4 = l3 + seq![
        "fwd: "@ + yes_or_no(f.fwd),
        "mgmt: "@ + yes_or_no(f.mgmt),
        "netd: "@ + netd@,
    ];
    assert(texts(out@) == l4);
    add_image(&mut out, &f.update, "booted");
    add_image(&mut out, &f.update, "staged");
    add_image(&mut out, &f.update, "rollback");
    assert(texts(out@) == admin_lines(*f));
    write_lines(&out)
}

// ---------------------------------------------------------------------------
// Laws
// ---------------------------------------------------------------------------

/// What the consoles send of themselves goes to the update daemon, but for
/// first-boot choices: before there is an owner, no state is applied.
pub proof fn law_console_keeps_to_its_commands(line: Seq<char>)
    ensures
        boot_command(line) matches Ok(BootCommandView::Ask(socket, v)) ==> socket == UPDATE_SOCK@,
        boot_command(line) matches Ok(BootCommandView::Choose(v)) ==> v.text_member("op"@) == Some("opt"@),
        admin_command(line) matches AdminCommandView::Ask(socket, v) ==> socket == UPDATE_SOCK@,
        !(admin_command(line) is Expired),
{
    reveal_strlit("op");
    reveal_strlit("nic");
    reveal_strlit("mode");
    reveal_strlit("cidr");
    assert("op"@.len() == 2 && "nic"@.len() == 3 && "mode"@.len() == 4 && "cidr"@.len() == 4);
}

/// The web interface is shown at addresses of the chosen NIC alone, and only at
/// those where it can be reached.
pub proof fn law_only_the_chosen_nic_is_shown(l: NicListView, e: int)
    requires
        0 <= e < url_lines(l).len(),
    ensures
        exists|i: int, k: int|
            0 <= i < l.nics.len() && 0 <= k < l.nics[i].addrs.len() && l.opted == Some(l.nics[i].name)
                && #[trigger] url_of(l.nics[i].name, l.nics[i].addrs[k]) is Some && url_lines(l)[e] == "  "@
                + url_of(l.nics[i].name, l.nics[i].addrs[k])->0,
{
    let f = urls_at(l);
    lemma_concat_member(l.nics.len(), f, e);
    let i = choose|i: int| 0 <= i < l.nics.len() && (#[trigger] f(i)).contains(url_lines(l)[e]);
    let nic = l.nics[i];
    let g = url_line(nic);
    let urls = collect(nic.addrs.len(), g);
    let x = choose|x: int| 0 <= x < urls.len() && urls[x] == url_lines(l)[e];
    lemma_collected(nic.addrs.len(), g, x);
    let k = choose|k: int| 0 <= k < nic.addrs.len() && #[trigger] g(k) == Some(urls[x]);
    assert(url_of(l.nics[i].name, l.nics[i].addrs[k]) is Some);
}

/// No NICs have the empty key, so that they are told from any others.
pub proof fn law_no_nics_have_no_key(v: Seq<NicView>)
    ensures
        key_of(v).len() == 0 <==> v.len() == 0,
{
    let parts = Seq::new(v.len(), |i: int| v[i].name + "="@ + join(addr_texts(v[i].addrs), ","@));
    reveal_strlit("=");
    assert("="@.len() == 1);
    if v.len() > 0 {
        assert(parts[0].len() > 0);
        lemma_join_not_empty(parts, ";"@);
    }
}

proof fn lemma_join_not_empty(parts: Seq<Seq<char>>, sep: Seq<char>)
    requires
        parts.len() > 0,
        parts[0].len() > 0,
    ensures
        join(parts, sep).len() > 0,
    decreases parts.len(),
{
    if parts.len() > 1 {
        lemma_join_not_empty(parts.drop_last(), sep);
    }
}

/// What a line at the console of an appliance without an owner does: it shows how
/// the appliance is, makes the choice that it spells out, or asks for an image;
/// what is missing is told.
pub proof fn law_first_console_does_what_it_is_told(line: Seq<char>)
    ensures
        ({
            let w = words(line);
            let c = boot_command(line);
            &&& w.len() == 0 ==> c == Ok::<BootCommandView, Seq<char>>(BootCommandView::Status)
            &&& w.len() > 0 && w[0] == "status"@ ==> c == Ok::<BootCommandView, Seq<char>>(BootCommandView::Status)
            &&& w.len() >= 3 && w[0] == "static"@ ==> chooses(c, "static"@, w[1], Some(w[2]))
            &&& w.len() >= 2 && w[0] == "dhcp"@ ==> chooses(c, "dhcp"@, w[1], None)
            &&& w.len() >= 2 && w[0] == "slaac"@ ==> chooses(c, "slaac"@, w[1], None)
            &&& w.len() == 2 && w[0] == "static"@ ==> c is Err
            &&& w.len() == 1 && (w[0] == "static"@ || w[0] == "dhcp"@ || w[0] == "slaac"@) ==> c is Err
            &&& w.len() > 0 && w[0] == "apply"@ ==> c is Err
            &&& w.len() >= 2 && w[0] == "update"@ ==> (c matches Ok(BootCommandView::Ask(socket, v)) && socket
                == "/var/lib/fwos/update.sock"@ && v.member("op"@) == Some(JsonView::Text("stage"@)) && v.member(
                "image"@,
            ) == Some(JsonView::Text(w[1])))
        }),
{
    lemma_console_words();
}

/// Whether a line makes that first-boot choice.
pub open spec fn chooses(
    c: Result<BootCommandView, Seq<char>>,
    mode: Seq<char>,
    nic: Seq<char>,
    cidr: Option<Seq<char>>,
) -> bool {
    c matches Ok(BootCommandView::Choose(v)) && v.member("op"@) == Some(JsonView::Text("opt"@)) && v.member("mode"@)
        == Some(JsonView::Text(mode)) && v.member("nic"@) == Some(JsonView::Text(nic)) && v.member("cidr"@) == (
    match cidr {
        Some(x) => Some(JsonView::Text(x)),
        None => None,
    })
}

/// The words that the consoles know are different.
proof fn lemma_console_words()
    ensures
        ""@.len() == 0,
        "status"@.len() == 6 && "status"@[0] == 's' && "status"@[4] == 'u',
        "help"@.len() == 4 && "help"@[0] == 'h',
        "static"@.len() == 6 && "static"@[0] == 's' && "static"@[4] == 'i',
        "dhcp"@.len() == 4 && "dhcp"@[0] == 'd',
        "slaac"@.len() == 5 && "slaac"@[0] == 's',
        "apply"@.len() == 5 && "apply"@[0] == 'a',
        "update"@.len() == 6 && "update"@[0] == 'u',
        "logout"@.len() == 6 && "logout"@[0] == 'l',
        "show"@.len() == 4 && "show"@[0] == 's',
        "reboot"@.len() == 6 && "reboot"@[0] == 'r',
        "rollback"@.len() == 8,
        "op"@.len() == 2,
        "nic"@.len() == 3,
        "mode"@.len() == 4 && "mode"@[0] == 'm',
        "cidr"@.len() == 4 && "cidr"@[0] == 'c',
        "image"@.len() == 5,
{
    reveal_strlit("");
    reveal_strlit("status");
    reveal_strlit("help");
    reveal_strlit("static");
    reveal_strlit("dhcp");
    reveal_strlit("slaac");
    reveal_strlit("apply");
    reveal_strlit("update");
    reveal_strlit("logout");
    reveal_strlit("show");
    reveal_strlit("reboot");
    reveal_strlit("rollback");
    reveal_strlit("op");
    reveal_strlit("nic");
    reveal_strlit("mode");
    reveal_strlit("cidr");
    reveal_strlit("image");
}

/// A line is a command and what stands behind the white space that ends it, each
/// without white space at its ends.
pub proof fn law_lines_are_commands(line: Seq<char>, cmd: Seq<char>, c: char, rest: Seq<char>)
    requires
        forall|j: int| 0 <= j < cmd.len() ==> !is_white(#[trigger] cmd[j]),
        is_white(c),
        trim(line) == cmd || trim(line) == cmd + seq![c] + rest,
    ensures
        trim(line) == cmd ==> command_of(line) == (cmd, ""@),
        trim(line) == cmd + seq![c] + rest ==> command_of(line) == (cmd, trim(rest)),
{
    let t = trim(line);
    if t == cmd {
        text::lemma_first_white(t, cmd.len() as int);
    }
    if t == cmd + seq![c] + rest {
        text::lemma_first_white(t, cmd.len() as int);
        assert(t.take(cmd.len() as int) =~= cmd);
        assert(t.skip(cmd.len() as int + 1) =~= rest);
    }
}

/// What a line of an administrator does.
pub proof fn law_administrators_console_does_what_it_is_told(line: Seq<char>)
    ensures
        ({
            let (cmd, rest) = command_of(line);
            let c = admin_command(line);
            &&& cmd.len() == 0 || cmd == "status"@ ==> c is Status
            &&& cmd == "help"@ ==> c is Say
            &&& cmd == "logout"@ ==> c is Logout
            &&& cmd == "show"@ ==> c == AdminCommandView::Show("/var/lib/fwos/desired.toml"@)
            &&& cmd == "apply"@ && rest.len() > 0 ==> c == AdminCommandView::Apply(rest)
            &&& cmd == "apply"@ && rest.len() == 0 ==> c is Say
            &&& cmd == "update"@ && rest.len() > 0 ==> (c matches AdminCommandView::Ask(socket, v) && socket
                == "/var/lib/fwos/update.sock"@ && v.member("op"@) == Some(JsonView::Text("stage"@)) && v.member(
                "image"@,
            ) == Some(JsonView::Text(rest)))
            &&& cmd == "reboot"@ || cmd == "rollback"@ ==> (c matches AdminCommandView::Ask(socket, v) && socket
                == "/var/lib/fwos/update.sock"@ && v.member("op"@) == Some(JsonView::Text(cmd)))
        }),
{
    lemma_console_words();
    let (cmd, rest) = command_of(line);
    if cmd.len() == 0 {
        assert(cmd =~= ""@);
    }
}

/// Where the web interface can be reached from a console: at the private and
/// link-local addresses, and just there.
pub proof fn law_reachable_addresses(a: u32, b: u128)
    ensures
        is_reachable(IpAddr::V4(a)) <==> {
            ||| 0x0a00_0000 <= a <= 0x0aff_ffff
            ||| 0xac10_0000 <= a <= 0xac1f_ffff
            ||| 0xc0a8_0000 <= a <= 0xc0a8_ffff
            ||| 0xa9fe_0000 <= a <= 0xa9fe_ffff
        },
        is_reachable(IpAddr::V6(b)) <==> {
            ||| 0xfe80_0000_0000_0000_0000_0000_0000_0000 <= b <= 0xfebf_ffff_ffff_ffff_ffff_ffff_ffff_ffff
            ||| 0xfc00_0000_0000_0000_0000_0000_0000_0000 <= b <= 0xfdff_ffff_ffff_ffff_ffff_ffff_ffff_ffff
        },
{
    ip::law_ranges_of_v4_addresses(a);
    ip::law_ranges_of_v6_addresses(b);
}

/// The place of the web interface at an address: it is in brackets for IPv6, and
/// names the NIC where the address is link-local.
pub proof fn law_places_of_the_web_interface(nic: Seq<char>, a: IpAddr)
    requires
        is_reachable(a),
    ensures
        a is V4 ==> url_of(nic, a) == Some("https://"@ + text_of(a) + "/"@),
        a matches IpAddr::V6(x) ==> link_local_v6(x) ==> url_of(nic, a) == Some(
            "https://["@ + text_of(a) + "%"@ + nic + "]/"@,
        ),
        a matches IpAddr::V6(x) ==> !link_local_v6(x) ==> url_of(nic, a) == Some("https://["@ + text_of(a) + "]/"@),
{
}

/// Every NIC is shown, and every reachable address of the chosen one.
pub proof fn law_every_way_in_is_shown(l: NicListView, i: int, k: int)
    requires
        0 <= i < l.nics.len(),
    ensures
        status_lines(l).contains(nic_line(l.nics[i])),
        0 <= k < l.nics[i].addrs.len() && l.opted == Some(l.nics[i].name) && url_of(
            l.nics[i].name,
            l.nics[i].addrs[k],
        ) is Some ==> status_lines(l).contains("  "@ + url_of(l.nics[i].name, l.nics[i].addrs[k])->0),
{
    let a = seq!["FWOS Bootstrap console"@, "NICs:"@];
    let b = Seq::new(l.nics.len(), |i: int| nic_line(l.nics[i]));
    let all = status_lines(l);
    assert(all[2 + i] == b[i]);
    let n = l.nics[i];
    if 0 <= k < n.addrs.len() && l.opted == Some(n.name) && url_of(n.name, n.addrs[k]) is Some {
        let x = "  "@ + url_of(n.name, n.addrs[k])->0;
        lemma_collects(n.addrs.len(), url_line(n), k);
        let piece = urls_at(l)(i);
        assert(piece.contains(x));
        lemma_concat_has(l.nics.len(), urls_at(l), i, x);
        let u = url_lines(l);
        let e = choose|e: int| 0 <= e < u.len() && u[e] == x;
        assert(all[2 + b.len() + 1 + e] == x);
    }
}

/// Every NIC that a reply names is told with every address that it gives, and the
/// chosen one is known.
pub proof fn law_every_told_nic_is_known(v: JsonView, l: Seq<JsonView>, i: int, name: Seq<char>, choice: JsonView)
    requires
        v.member("nics"@) == Some(JsonView::List(l)),
        0 <= i < l.len(),
        l[i].member("name"@) == Some(JsonView::Text(name)),
    ensures
        told_list(v).nics.contains(NicView { name, addrs: nic_addresses(l[i]) }),
        v.member("opt"@) == Some(choice) ==> told_list(v).opted == choice.text_member("nic"@),
        v.member("opt"@) is None ==> told_list(v).opted is None,
{
    lemma_collects(l.len(), nic_at(l), i);
}

/// Every address that a reply gives for a NIC is known.
pub proof fn law_every_told_address_is_known(v: JsonView, l: Seq<JsonView>, k: int, s: Seq<char>, a: IpAddr)
    requires
        v.member("addresses"@) == Some(JsonView::List(l)),
        0 <= k < l.len(),
        l[k] == JsonView::Text(s),
        parse(before(s, '/')) == Some(a),
    ensures
        nic_addresses(v).contains(a),
{
    lemma_told_addresses(l, l.len(), k, a);
}

proof fn lemma_told_addresses(l: Seq<JsonView>, n: nat, k: int, a: IpAddr)
    requires
        n <= l.len(),
        0 <= k < n,
        told_address(l[k]) == Some(a),
    ensures
        told_addresses(l, n).contains(a),
    decreases n,
{
    let found = told_addresses(l, (n - 1) as nat);
    let all = told_addresses(l, n);
    if k < n - 1 {
        lemma_told_addresses(l, (n - 1) as nat, k, a);
        let e = choose|e: int| 0 <= e < found.len() && found[e] == a;
        assert(all[e] == a);
    } else if found.contains(a) {
        assert(all == found);
    } else {
        assert(all.last() == a);
    }
}

/// What is shown ends with a line end, and is else what was replied.
pub proof fn law_replies_are_shown(s: Seq<char>)
    ensures
        shown(Ok(s)) == s || shown(Ok(s)) == s + "\n"@,
        ends_with(shown(Ok(s)), "\n"@),
        shown(Err(s)) == s + "\n"@,
{
    let t = s + "\n"@;
    assert(t.skip(t.len() - "\n"@.len()) =~= "\n"@);
}

/// Administrators are shown the hostname, every interface with its role, whether
/// the namespaces and the network daemon are there, and the images.
pub proof fn law_administrators_see_the_appliance(f: AdminFacts, list: Seq<JsonView>, i: int, name: Seq<char>, role: Seq<char>)
    requires
        f.desired@.member("interfaces"@) == Some(JsonView::List(list)),
        0 <= i < list.len(),
        list[i].member("name"@) == Some(JsonView::Text(name)),
        list[i].member("role"@) == Some(JsonView::Text(role)),
        role.len() > 0,
    ensures
        admin_lines(f).contains("  "@ + name + "  "@ + role),
        shown_hostname(text_opt(f.hostname), f.desired@) matches Some(h) ==> admin_lines(f).contains(
            "hostname: "@ + h,
        ),
        f.bootstrapped ==> admin_lines(f).contains("bootstrapped"@),
        admin_lines(f).contains("fwd: "@ + (if f.fwd {
            "yes"@
        } else {
            "no"@
        })),
        admin_lines(f).contains("mgmt: "@ + (if f.mgmt {
            "yes"@
        } else {
            "no"@
        })),
        admin_lines(f).contains("netd: "@ + (if f.netd {
            "running"@
        } else {
            "down"@
        })),
{
    let a = seq!["FWOS Appliance CLI"@];
    let b = hostname_lines(f);
    let c = if f.bootstrapped {
        seq!["bootstrapped"@]
    } else {
        Seq::empty()
    };
    let d = iface_lines(f.desired@);
    let e = exposure_lines(f.desired@);
    let all = admin_lines(f);
    let rows = Seq::new(list.len(), |i: int| role_line(list[i]));
    assert(d == seq!["NICs:"@] + rows);
    assert(rows[i] == role_line(list[i]));
    assert(d[1 + i] == rows[i]);
    let n = 1 + b.len() + c.len();
    assert(all[n + 1 + i] == d[1 + i]);
    if b.len() > 0 {
        assert(all[1] == b[0]);
    }
    if f.bootstrapped {
        assert(all[1 + b.len() as int] == c[0]);
    }
    let m = (n + d.len() + e.len()) as int;
    assert(all[m] == "fwd: "@ + yes_or_no(f.fwd));
    assert(all[m + 1] == "mgmt: "@ + yes_or_no(f.mgmt));
    assert(all.contains(all[m + 2]));
}

/// A line that is typed ends at the first line feed or carriage return; the two
/// together are one end.
pub proof fn law_typed_lines(p: Seq<u8>, rest: Seq<u8>, i: int)
    requires
        forall|j: int| 0 <= j < p.len() ==> #[trigger] p[j] != 10 && p[j] != 13,
    ensures
        first_end(p + seq![10u8] + rest, i) <==> i == p.len(),
        first_end(p + seq![13u8] + rest, i) <==> i == p.len(),
        line_length(p + seq![10u8] + rest, p.len() as int) == p.len() + 1,
        rest.len() > 0 && rest[0] == 10 ==> line_length(p + seq![13u8] + rest, p.len() as int) == p.len() + 2,
        rest.len() == 0 || rest[0] != 10 ==> line_length(p + seq![13u8] + rest, p.len() as int) == p.len() + 1,
        !first_end(p, i),
{
    let n = p.len() as int;
    let a = p + seq![10u8] + rest;
    let b = p + seq![13u8] + rest;
    assert(a[n] == 10 && b[n] == 13);
    assert(ends_at(a, n) && ends_at(b, n));
    assert forall|j: int| 0 <= j < n implies !ends_at(a, j) && !ends_at(b, j) by {
        assert(a[j] == p[j] && b[j] == p[j]);
    }
    if rest.len() > 0 {
        assert(b[n + 1] == rest[0]);
    }
}

/// What tells lists of NICs apart holds every NIC, with all its addresses, in
/// their order.
pub proof fn law_key_holds_every_nic(v: Seq<NicView>, n: NicView)
    ensures
        key_of(seq![n]) == n.name + "="@ + join(addr_texts(n.addrs), ","@),
        v.len() > 0 ==> key_of(v.push(n)) == key_of(v) + ";"@ + (n.name + "="@ + join(addr_texts(n.addrs), ","@)),
{
    let one = n.name + "="@ + join(addr_texts(n.addrs), ","@);
    let w = v.push(n);
    let all = Seq::new(w.len(), |i: int| w[i].name + "="@ + join(addr_texts(w[i].addrs), ","@));
    let less = Seq::new(v.len(), |i: int| v[i].name + "="@ + join(addr_texts(v[i].addrs), ","@));
    assert(all =~= less.push(one));
    text::law_joining(less, ";"@, one);
    let s = seq![n];
    assert(Seq::new(s.len(), |i: int| s[i].name + "="@ + join(addr_texts(s[i].addrs), ","@)) =~= seq![one]);
}

/// Administrators are shown the images that the update daemon tells.
pub proof fn law_administrators_see_the_images(f: AdminFacts, key: Seq<char>, image: Seq<char>)
    requires
        key == "booted"@ || key == "staged"@ || key == "rollback"@,
        f.update@.member(key) == Some(JsonView::Text(image)),
        image.len() > 0,
    ensures
        admin_lines(f).contains(key + ": "@ + image),
{
    let x = image_line(f.update@, "booted"@);
    let y = image_line(f.update@, "staged"@);
    let z = image_line(f.update@, "rollback"@);
    let all = admin_lines(f);
    let n = all.len() - x.len() - y.len() - z.len();
    if key == "booted"@ {
        assert(all[n] == x[0]);
    } else if key == "staged"@ {
        assert(all[n + x.len()] == y[0]);
    } else {
        assert(all[n + x.len() + y.len()] == z[0]);
    }
}

/// A NIC is shown with its addresses, if it has any.
pub proof fn law_nics_are_shown(n: NicView)
    ensures
        n.addrs.len() == 0 ==> nic_line(n) == "  "@ + n.name,
        join(addr_texts(n.addrs), " "@).len() > 0 ==> nic_line(n) == "  "@ + n.name + "  "@ + join(
            addr_texts(n.addrs),
            " "@,
        ),
{
}

} // verus!
