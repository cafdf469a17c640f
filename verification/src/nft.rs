//! The firewall rules of a Desired state, and those of an appliance without
//! an owner, as the lines of an nftables script.

use crate::desired::{DesiredState, DesiredView};
use crate::exposure;
use crate::exposure::{bootstrap_addresses, exposure_of, exposure_views, reachable_addresses};
use crate::policy::{has_role, in_role};
use crate::text;
use crate::text::{
    add_text, collect, concat, lemma_collected, lemma_collects, lemma_concat_even, lemma_concat_has,
    lemma_concat_len, lemma_concat_member, lines_text, texts, write_lines,
};
use vstd::prelude::*;

verus! {

/// The end of the link to the management namespace that is in the forwarding
/// namespace.
pub const FWD_MGMT_VETH: &'static str = "f0mgmt";

/// The address of the web interface behind that link.
pub const MGMT_FWD_IP: &'static str = "169.254.127.6";

pub const MGMT_FWD_IP6: &'static str = "fd53:1:1::6";

// ---------------------------------------------------------------------------
// Lines
// ---------------------------------------------------------------------------

/// The names of the interfaces with that role, in order.
pub open spec fn role_names(s: DesiredView, role: Seq<char>) -> Seq<Seq<char>> {
    collect(s.interfaces.len(), role_name(s, role))
}

pub open spec fn role_name(s: DesiredView, role: Seq<char>) -> spec_fn(int) -> Option<Seq<char>> {
    |i: int|
        if has_role(s.interfaces[i], role) {
            Some(s.interfaces[i].name)
        } else {
            None
        }
}

/// Whether some WAN has an IPv4 address.
pub open spec fn has_v4_wan(s: DesiredView) -> bool {
    exists|i: int, k: int|
        0 <= i < s.interfaces.len() && 0 <= k < s.interfaces[i].addresses.len() && has_role(
            s.interfaces[i],
            "wan"@,
        ) && (#[trigger] s.interfaces[i].addresses[k]).contains('.')
}

/// Traffic of the host is masqueraded on its way out.
pub open spec fn host_pull_lines() -> Seq<Seq<char>> {
    seq![
        "table ip fwos-pull {"@,
        "  chain postrouting {"@,
        "    type nat hook postrouting priority srcnat; policy accept;"@,
        "    ip saddr 169.254.127.0/30 masquerade"@,
        "  }"@,
        "}"@,
    ]
}

pub open spec fn extra_line(extra: Seq<Seq<char>>) -> spec_fn(int) -> Seq<Seq<char>> {
    |i: int| seq!["    "@ + extra[i]]
}

/// A WAN lets in replies only.
pub open spec fn wan_input(wans: Seq<Seq<char>>) -> spec_fn(int) -> Seq<Seq<char>> {
    |i: int|
        seq![
            "    iifname \""@ + wans[i] + "\" ct state established,related accept"@,
            "    iifname \""@ + wans[i] + "\" drop"@,
        ]
}

/// What comes in to the forwarding namespace itself.
pub open spec fn input_chain(s: DesiredView) -> Seq<Seq<char>> {
    seq![
        "  chain input {"@,
        "    type filter hook input priority filter; policy accept;"@,
        "    iifname \"lo\" accept"@,
    ] + concat(s.nft_extra.len(), extra_line(s.nft_extra)) + concat(
        role_names(s, "wan"@).len(),
        wan_input(role_names(s, "wan"@)),
    ) + seq!["  }"@]
}

/// The start of the forward chain: with the guard, everything is dropped
/// before anything is accepted.
pub open spec fn forward_head(guard: bool) -> Seq<Seq<char>> {
    if guard {
        seq![
            "  chain forward {"@,
            "    type filter hook forward priority filter; policy drop;"@,
            "    drop"@,
            "    ct state established,related accept"@,
            "    iifname \""@ + FWD_MGMT_VETH@ + "\" accept"@,
        ]
    } else {
        seq![
            "  chain forward {"@,
            "    type filter hook forward priority filter; policy drop;"@,
            "    ct state established,related accept"@,
            "    iifname \""@ + FWD_MGMT_VETH@ + "\" accept"@,
        ]
    }
}

/// The web interface is forwarded to from the interfaces that expose it.
pub open spec fn ui_forward(e: Seq<(Seq<char>, Seq<Seq<char>>)>) -> spec_fn(int) -> Seq<Seq<char>> {
    |i: int|
        seq![
            "    iifname \""@ + e[i].0 + "\" oifname \""@ + FWD_MGMT_VETH@ + "\" tcp dport 443 accept"@,
        ]
}

/// Nothing else is forwarded from or to a management interface.
pub open spec fn management_forward(mgmts: Seq<Seq<char>>) -> spec_fn(int) -> Seq<Seq<char>> {
    |i: int|
        seq!["    iifname \""@ + mgmts[i] + "\" drop"@, "    oifname \""@ + mgmts[i] + "\" drop"@]
}

/// Everything else is forwarded to a WAN.
pub open spec fn wan_forward(wans: Seq<Seq<char>>) -> spec_fn(int) -> Seq<Seq<char>> {
    |i: int| seq!["    oifname \""@ + wans[i] + "\" accept"@]
}

/// What comes before the management and WAN rules of the forward chain.
pub open spec fn forward_start(s: DesiredView, guard: bool) -> Seq<Seq<char>> {
    forward_head(guard) + concat(exposure_of(s).len(), ui_forward(exposure_of(s)))
}

pub open spec fn management_rules(s: DesiredView) -> Seq<Seq<char>> {
    concat(role_names(s, "mgmt"@).len(), management_forward(role_names(s, "mgmt"@)))
}

pub open spec fn wan_rules(s: DesiredView) -> Seq<Seq<char>> {
    concat(role_names(s, "wan"@).len(), wan_forward(role_names(s, "wan"@)))
}

/// What is forwarded.
pub open spec fn forward_chain(s: DesiredView, guard: bool) -> Seq<Seq<char>> {
    forward_start(s, guard) + management_rules(s) + wan_rules(s) + seq!["  }"@]
}

/// The web interface at one address of an interface.
pub open spec fn dnat_line(name: Seq<char>, ips: Seq<Seq<char>>) -> spec_fn(int) -> Seq<Seq<char>> {
    |i: int|
        seq![
            if ips[i].contains(':') {
                "    iifname \""@ + name + "\" ip6 daddr "@ + ips[i] + " tcp dport 443 dnat ip6 to "@
                    + MGMT_FWD_IP6@
            } else {
                "    iifname \""@ + name + "\" ip daddr "@ + ips[i] + " tcp dport 443 dnat ip to "@
                    + MGMT_FWD_IP@
            },
        ]
}

/// The web interface on one interface: at its addresses, or at any address
/// where it has none yet.
pub open spec fn dnat_lines(name: Seq<char>, ips: Seq<Seq<char>>) -> Seq<Seq<char>> {
    if ips.len() == 0 {
        seq!["    iifname \""@ + name + "\" tcp dport 443 dnat ip to "@ + MGMT_FWD_IP@]
    } else {
        concat(ips.len(), dnat_line(name, ips))
    }
}

pub open spec fn ui_dnat(e: Seq<(Seq<char>, Seq<Seq<char>>)>) -> spec_fn(int) -> Seq<Seq<char>> {
    |i: int| dnat_lines(e[i].0, reachable_addresses(e[i].1))
}

/// Where the web interface is found.
pub open spec fn prerouting_chain(s: DesiredView) -> Seq<Seq<char>> {
    if exposure_of(s).len() == 0 {
        Seq::empty()
    } else {
        seq![
            "  chain prerouting {"@,
            "    type nat hook prerouting priority dstnat; policy accept;"@,
        ] + concat(exposure_of(s).len(), ui_dnat(exposure_of(s))) + seq!["  }"@]
    }
}

pub open spec fn masquerade(wans: Seq<Seq<char>>) -> spec_fn(int) -> Seq<Seq<char>> {
    |i: int| seq!["    oifname \""@ + wans[i] + "\" masquerade"@]
}

/// IPv4 traffic leaves under the address of the WAN.
pub open spec fn postrouting_chain(s: DesiredView) -> Seq<Seq<char>> {
    if has_v4_wan(s) {
        seq![
            "  chain postrouting {"@,
            "    type nat hook postrouting priority srcnat; policy accept;"@,
        ] + concat(role_names(s, "wan"@).len(), masquerade(role_names(s, "wan"@))) + seq!["  }"@]
    } else {
        Seq::empty()
    }
}

/// The whole rule set of a Desired state, in place of what was there. With the
/// guard it forwards nothing.
pub open spec fn ruleset(s: DesiredView, guard: bool) -> Seq<Seq<char>> {
    seq!["flush ruleset"@] + host_pull_lines() + seq!["table inet fwos {"@] + input_chain(s)
        + forward_chain(s, guard) + prerouting_chain(s) + postrouting_chain(s) + seq!["}"@]
}

// ---------------------------------------------------------------------------
// Writing them
// ---------------------------------------------------------------------------

fn names_in_role(s: &DesiredState, role: &str) -> (r: Vec<String>)
    ensures
        texts(r@) == role_names(s@, role@),
{
    let ghost f = role_name(s@, role@);
    let mut out: Vec<String> = Vec::new();
    let mut i: usize = 0;
    assert(texts(out@) == Seq::<Seq<char>>::empty());
    while i < s.interfaces.len()
        invariant
            f == role_name(s@, role@),
            i <= s.interfaces@.len(),
            texts(out@) == collect(i as nat, f),
        decreases s.interfaces@.len() - i,
    {
        assert(s@.interfaces[i as int] == s.interfaces@[i as int]@);
        if in_role(&s.interfaces[i], role) {
            add_text(&mut out, s.interfaces[i].name.clone());
        }
        i = i + 1;
    }
    out
}

fn any_dotted(v: &Vec<String>) -> (r: bool)
    ensures
        r == exists|k: int| 0 <= k < v@.len() && (#[trigger] texts(v@)[k]).contains('.'),
{
    let mut k: usize = 0;
    while k < v.len()
        invariant
            k <= v@.len(),
            forall|j: int| 0 <= j < k ==> !(#[trigger] texts(v@)[j]).contains('.'),
        decreases v@.len() - k,
    {
        assert(texts(v@)[k as int] == v@[k as int]@);
        if text::has_char(v[k].as_str(), '.') {
            return true;
        }
        k = k + 1;
    }
    false
}

fn v4_wan(s: &DesiredState) -> (r: bool)
    ensures
        r == has_v4_wan(s@),
{
    let ghost v = s@.interfaces;
    let mut i: usize = 0;
    while i < s.interfaces.len()
        invariant
            v == s@.interfaces,
            i <= s.interfaces@.len(),
            forall|j: int, k: int|
                0 <= j < i && 0 <= k < v[j].addresses.len() && has_role(v[j], "wan"@)
                    ==> !(#[trigger] v[j].addresses[k]).contains('.'),
        decreases s.interfaces@.len() - i,
    {
        let iface = &s.interfaces[i];
        assert(v[i as int] == iface@);
        if in_role(iface, "wan") && any_dotted(&iface.addresses) {
            proof {
                let t = texts(iface.addresses@);
                let k = choose|k: int| 0 <= k < t.len() && (#[trigger] t[k]).contains('.');
                assert(v[i as int].addresses[k] == t[k]);
            }
            return true;
        }
        proof {
            assert forall|j: int, k: int|
                0 <= j < i + 1 && 0 <= k < v[j].addresses.len() && has_role(v[j], "wan"@) implies !(
            #[trigger] v[j].addresses[k]).contains('.') by {
                if j == i {
                    assert(v[j].addresses[k] == texts(iface.addresses@)[k]);
                }
            }
        }
        i = i + 1;
    }
    false
}

fn push_extra(lines: &mut Vec<String>, extra: &Vec<String>)
    ensures
        texts(final(lines)@) == texts(old(lines)@) + concat(extra@.len(), extra_line(texts(extra@))),
{
    let ghost base = texts(lines@);
    let ghost f = extra_line(texts(extra@));
    let mut i: usize = 0;
    assert(base + concat(0, f) == base);
    while i < extra.len()
        invariant
            f == extra_line(texts(extra@)),
            i <= extra@.len(),
            texts(lines@) == base + concat(i as nat, f),
        decreases extra@.len() - i,
    {
        assert(texts(extra@)[i as int] == extra@[i as int]@);
        add_text(lines, "    ".to_owned().concat(extra[i].as_str()));
        assert(texts(lines@) == base + (concat(i as nat, f) + f(i as int)));
        i = i + 1;
    }
}

fn push_wan_input(lines: &mut Vec<String>, wans: &Vec<String>)
    ensures
        texts(final(lines)@) == texts(old(lines)@) + concat(wans@.len(), wan_input(texts(wans@))),
{
    let ghost base = texts(lines@);
    let ghost f = wan_input(texts(wans@));
    let mut i: usize = 0;
    assert(base + concat(0, f) == base);
    while i < wans.len()
        invariant
            f == wan_input(texts(wans@)),
            i <= wans@.len(),
            texts(lines@) == base + concat(i as nat, f),
        decreases wans@.len() - i,
    {
        assert(texts(wans@)[i as int] == wans@[i as int]@);
        let wan = wans[i].as_str();
        add_text(
            lines,
            "    iifname \"".to_owned().concat(wan).concat("\" ct state established,related accept"),
        );
        add_text(lines, "    iifname \"".to_owned().concat(wan).concat("\" drop"));
        assert(texts(lines@) == base + (concat(i as nat, f) + f(i as int)));
        i = i + 1;
    }
}

fn push_ui_forward(lines: &mut Vec<String>, e: &Vec<(String, Vec<String>)>)
    ensures
        texts(final(lines)@) == texts(old(lines)@) + concat(e@.len(), ui_forward(exposure_views(e@))),
{
    let ghost base = texts(lines@);
    let ghost f = ui_forward(exposure_views(e@));
    let mut i: usize = 0;
    assert(base + concat(0, f) == base);
    while i < e.len()
        invariant
            f == ui_forward(exposure_views(e@)),
            i <= e@.len(),
            texts(lines@) == base + concat(i as nat, f),
        decreases e@.len() - i,
    {
        assert(exposure_views(e@)[i as int].0 == e@[i as int].0@);
        add_text(
            lines,
            "    iifname \"".to_owned().concat(e[i].0.as_str()).concat("\" oifname \"").concat(
                FWD_MGMT_VETH,
            ).concat("\" tcp dport 443 accept"),
        );
        assert(texts(lines@) == base + (concat(i as nat, f) + f(i as int)));
        i = i + 1;
    }
}

fn push_management(lines: &mut Vec<String>, mgmts: &Vec<String>)
    ensures
        texts(final(lines)@) == texts(old(lines)@) + concat(
            mgmts@.len(),
            management_forward(texts(mgmts@)),
        ),
{
    let ghost base = texts(lines@);
    let ghost f = management_forward(texts(mgmts@));
    let mut i: usize = 0;
    assert(base + concat(0, f) == base);
    while i < mgmts.len()
        invariant
            f == management_forward(texts(mgmts@)),
            i <= mgmts@.len(),
            texts(lines@) == base + concat(i as nat, f),
        decreases mgmts@.len() - i,
    {
        assert(texts(mgmts@)[i as int] == mgmts@[i as int]@);
        let mgmt = mgmts[i].as_str();
        add_text(lines, "    iifname \"".to_owned().concat(mgmt).concat("\" drop"));
        add_text(lines, "    oifname \"".to_owned().concat(mgmt).concat("\" drop"));
        assert(texts(lines@) == base + (concat(i as nat, f) + f(i as int)));
        i = i + 1;
    }
}

fn push_wan_forward(lines: &mut Vec<String>, wans: &Vec<String>)
    ensures
        texts(final(lines)@) == texts(old(lines)@) + concat(wans@.len(), wan_forward(texts(wans@))),
{
    let ghost base = texts(lines@);
    let ghost f = wan_forward(texts(wans@));
    let mut i: usize = 0;
    assert(base + concat(0, f) == base);
    while i < wans.len()
        invariant
            f == wan_forward(texts(wans@)),
            i <= wans@.len(),
            texts(lines@) == base + concat(i as nat, f),
        decreases wans@.len() - i,
    {
        assert(texts(wans@)[i as int] == wans@[i as int]@);
        add_text(lines, "    oifname \"".to_owned().concat(wans[i].as_str()).concat("\" accept"));
        assert(texts(lines@) == base + (concat(i as nat, f) + f(i as int)));
        i = i + 1;
    }
}

fn push_masquerade(lines: &mut Vec<String>, wans: &Vec<String>)
    ensures
        texts(final(lines)@) == texts(old(lines)@) + concat(wans@.len(), masquerade(texts(wans@))),
{
    let ghost base = texts(lines@);
    let ghost f = masquerade(texts(wans@));
    let mut i: usize = 0;
    assert(base + concat(0, f) == base);
    while i < wans.len()
        invariant
            f == masquerade(texts(wans@)),
            i <= wans@.len(),
            texts(lines@) == base + concat(i as nat, f),
        decreases wans@.len() - i,
    {
        assert(texts(wans@)[i as int] == wans@[i as int]@);
        add_text(lines, "    oifname \"".to_owned().concat(wans[i].as_str()).concat("\" masquerade"));
        assert(texts(lines@) == base + (concat(i as nat, f) + f(i as int)));
        i = i + 1;
    }
}

fn push_dnat(lines: &mut Vec<String>, name: &str, ips: &Vec<String>)
    ensures
        texts(final(lines)@) == texts(old(lines)@) + dnat_lines(name@, texts(ips@)),
{
    let ghost base = texts(lines@);
    let ghost f = dnat_line(name@, texts(ips@));
    if ips.len() == 0 {
        add_text(
            lines,
            "    iifname \"".to_owned().concat(name).concat("\" tcp dport 443 dnat ip to ").concat(
                MGMT_FWD_IP,
            ),
        );
        assert(texts(lines@) == base + dnat_lines(name@, texts(ips@)));
        return ;
    }
    let mut i: usize = 0;
    assert(base + concat(0, f) == base);
    while i < ips.len()
        invariant
            f == dnat_line(name@, texts(ips@)),
            i <= ips@.len(),
            texts(lines@) == base + concat(i as nat, f),
        decreases ips@.len() - i,
    {
        assert(texts(ips@)[i as int] == ips@[i as int]@);
        let ip = ips[i].as_str();
        if text::has_char(ip, ':') {
            add_text(
                lines,
                "    iifname \"".to_owned().concat(name).concat("\" ip6 daddr ").concat(ip).concat(
                    " tcp dport 443 dnat ip6 to ",
                ).concat(MGMT_FWD_IP6),
            );
        } else {
            add_text(
                lines,
                "    iifname \"".to_owned().concat(name).concat("\" ip daddr ").concat(ip).concat(
                    " tcp dport 443 dnat ip to ",
                ).concat(MGMT_FWD_IP),
            );
        }
        assert(texts(lines@) == base + (concat(i as nat, f) + f(i as int)));
        i = i + 1;
    }
}

fn push_ui_dnat(lines: &mut Vec<String>, e: &Vec<(String, Vec<String>)>)
    ensures
        texts(final(lines)@) == texts(old(lines)@) + concat(e@.len(), ui_dnat(exposure_views(e@))),
{
    let ghost base = texts(lines@);
    let ghost f = ui_dnat(exposure_views(e@));
    let mut i: usize = 0;
    assert(base + concat(0, f) == base);
    while i < e.len()
        invariant
            f == ui_dnat(exposure_views(e@)),
            i <= e@.len(),
            texts(lines@) == base + concat(i as nat, f),
        decreases e@.len() - i,
    {
        let ips = exposure::expose_ips(e[i].1.as_slice());
        push_dnat(lines, e[i].0.as_str(), &ips);
        assert(exposure_views(e@)[i as int] == (e@[i as int].0@, texts(e@[i as int].1@)));
        assert(texts(lines@) == base + (concat(i as nat, f) + f(i as int)));
        i = i + 1;
    }
}

fn push_host_pull(lines: &mut Vec<String>)
    ensures
        texts(final(lines)@) == texts(old(lines)@) + host_pull_lines(),
{
    add_text(lines, "table ip fwos-pull {".to_owned());
    add_text(lines, "  chain postrouting {".to_owned());
    add_text(lines, "    type nat hook postrouting priority srcnat; policy accept;".to_owned());
    add_text(lines, "    ip saddr 169.254.127.0/30 masquerade".to_owned());
    add_text(lines, "  }".to_owned());
    add_text(lines, "}".to_owned());
    assert(texts(lines@) == texts(old(lines)@) + host_pull_lines());
}

/// The rules that masquerade the host's own traffic.
pub fn host_pull_nft() -> (r: String)
    ensures
        r@ == lines_text(host_pull_lines()),
{
    let mut lines: Vec<String> = Vec::new();
    push_host_pull(&mut lines);
    assert(texts(lines@) == host_pull_lines());
    write_lines(&lines)
}

fn push_input(lines: &mut Vec<String>, s: &DesiredState, wans: &Vec<String>)
    requires
        texts(wans@) == role_names(s@, "wan"@),
    ensures
        texts(final(lines)@) == texts(old(lines)@) + input_chain(s@),
{
    let ghost base = texts(lines@);
    add_text(lines, "  chain input {".to_owned());
    add_text(lines, "    type filter hook input priority filter; policy accept;".to_owned());
    add_text(lines, "    iifname \"lo\" accept".to_owned());
    push_extra(lines, &s.nft_extra);
    push_wan_input(lines, wans);
    add_text(lines, "  }".to_owned());
    assert(texts(lines@) == base + input_chain(s@));
}

fn push_forward(
    lines: &mut Vec<String>,
    s: &DesiredState,
    wans: &Vec<String>,
    exposed: &Vec<(String, Vec<String>)>,
    guard: bool,
)
    requires
        texts(wans@) == role_names(s@, "wan"@),
        exposure_views(exposed@) == exposure_of(s@),
    ensures
        texts(final(lines)@) == texts(old(lines)@) + forward_chain(s@, guard),
{
    let ghost base = texts(lines@);
    add_text(lines, "  chain forward {".to_owned());
    add_text(lines, "    type filter hook forward priority filter; policy drop;".to_owned());
    if guard {
        add_text(lines, "    drop".to_owned());
    }
    add_text(lines, "    ct state established,related accept".to_owned());
    add_text(lines, "    iifname \"".to_owned().concat(FWD_MGMT_VETH).concat("\" accept"));
    assert(texts(lines@) == base + forward_head(guard));
    push_ui_forward(lines, exposed);
    let mgmts = names_in_role(s, "mgmt");
    push_management(lines, &mgmts);
    push_wan_forward(lines, wans);
    add_text(lines, "  }".to_owned());
    assert(texts(lines@) == base + forward_chain(s@, guard));
}

fn push_prerouting(lines: &mut Vec<String>, s: &DesiredState, exposed: &Vec<(String, Vec<String>)>)
    requires
        exposure_views(exposed@) == exposure_of(s@),
    ensures
        texts(final(lines)@) == texts(old(lines)@) + prerouting_chain(s@),
{
    let ghost base = texts(lines@);
    if exposed.len() > 0 {
        add_text(lines, "  chain prerouting {".to_owned());
        add_text(lines, "    type nat hook prerouting priority dstnat; policy accept;".to_owned());
        push_ui_dnat(lines, exposed);
        add_text(lines, "  }".to_owned());
    }
    assert(texts(lines@) == base + prerouting_chain(s@));
}

fn push_postrouting(lines: &mut Vec<String>, s: &DesiredState, wans: &Vec<String>)
    requires
        texts(wans@) == role_names(s@, "wan"@),
    ensures
        texts(final(lines)@) == texts(old(lines)@) + postrouting_chain(s@),
{
    let ghost base = texts(lines@);
    if v4_wan(s) {
        add_text(lines, "  chain postrouting {".to_owned());
        add_text(lines, "    type nat hook postrouting priority srcnat; policy accept;".to_owned());
        push_masquerade(lines, wans);
        add_text(lines, "  }".to_owned());
    }
    assert(texts(lines@) == base + postrouting_chain(s@));
}

/// The whole rule set of a Desired state.
pub fn nft_rules_with_recovery_guard(s: &DesiredState, recovery_required: bool) -> (r: String)
    ensures
        r@ == lines_text(ruleset(s@, recovery_required)),
{
    let wans = names_in_role(s, "wan");
    let exposed = exposure::ui_exposure(s);
    let mut lines: Vec<String> = Vec::new();
    add_text(&mut lines, "flush ruleset".to_owned());
    assert(texts(lines@) == seq!["flush ruleset"@]);
    push_host_pull(&mut lines);
    let ghost before = texts(lines@);
    add_text(&mut lines, "table inet fwos {".to_owned());
    assert(texts(lines@) == before + seq!["table inet fwos {"@]);
    push_input(&mut lines, s, &wans);
    push_forward(&mut lines, s, &wans, &exposed, recovery_required);
    push_prerouting(&mut lines, s, &exposed);
    push_postrouting(&mut lines, s, &wans);
    let ghost before = texts(lines@);
    add_text(&mut lines, "}".to_owned());
    assert(texts(lines@) == before + seq!["}"@]);
    write_lines(&lines)
}

/// With the guard, nothing is accepted in the forward chain before everything
/// is dropped.
pub proof fn law_guard_drops_before_any_accept(s: DesiredView)
    ensures
        forward_chain(s, true).len() > 2,
        forward_chain(s, true)[0] == "  chain forward {"@,
        forward_chain(s, true)[1] == "    type filter hook forward priority filter; policy drop;"@,
        forward_chain(s, true)[2] == "    drop"@,
{
}

/// The guard changes nothing but that one line: what comes in to the
/// appliance itself stays as the state has it.
pub proof fn law_guard_keeps_the_other_rules(s: DesiredView)
    ensures
        ({
            let at = 10 + input_chain(s).len();
            &&& at <= ruleset(s, false).len()
            &&& ruleset(s, true) == ruleset(s, false).insert(at as int, "    drop"@)
        }),
{
    let head = seq!["flush ruleset"@] + host_pull_lines() + seq!["table inet fwos {"@] + input_chain(s);
    let ui = concat(exposure_of(s).len(), ui_forward(exposure_of(s)));
    let (m, w, e) = (management_rules(s), wan_rules(s), seq!["  }"@]);
    let (p, q, r) = (prerouting_chain(s), postrouting_chain(s), seq!["}"@]);
    lemma_regroup(head, forward_head(true), ui, m, w, e, p, q, r);
    lemma_regroup(head, forward_head(false), ui, m, w, e, p, q, r);
    assert(forward_head(true) == forward_head(false).insert(2, "    drop"@));
    lemma_insert_inside(head, forward_head(false), ui + m + w + e + p + q + r, 2, "    drop"@);
}

/// Where the pieces of a sequence are grouped otherwise, it is the same
/// sequence.
proof fn lemma_regroup<T>(
    head: Seq<T>,
    f: Seq<T>,
    a: Seq<T>,
    b: Seq<T>,
    c: Seq<T>,
    d: Seq<T>,
    p: Seq<T>,
    q: Seq<T>,
    r: Seq<T>,
)
    ensures
        head + (f + a + b + c + d) + p + q + r == head + f + (a + b + c + d + p + q + r),
{
    assert(head + (f + a + b + c + d) + p + q + r =~= head + f + (a + b + c + d + p + q + r));
}

/// An element that is put into a piece is put into the whole.
proof fn lemma_insert_inside<T>(head: Seq<T>, f: Seq<T>, tail: Seq<T>, i: int, x: T)
    requires
        0 <= i <= f.len(),
    ensures
        head + f.insert(i, x) + tail == (head + f + tail).insert(head.len() + i, x),
{
    assert(head + f.insert(i, x) + tail =~= (head + f + tail).insert(head.len() + i, x));
}

/// In the forward chain the rules that drop what comes from or goes to a
/// management interface stand before every rule that accepts what goes to a
/// WAN.
pub proof fn law_management_is_dropped_before_wans_are_accepted(s: DesiredView, guard: bool, m: int, w: int)
    requires
        0 <= m < role_names(s, "mgmt"@).len(),
        0 <= w < role_names(s, "wan"@).len(),
    ensures
        ({
            let mgmts = role_names(s, "mgmt"@);
            let wans = role_names(s, "wan"@);
            let start = forward_start(s, guard).len();
            let from = start + 2 * m;
            let to = start + 2 * m + 1;
            let accept = start + 2 * mgmts.len() + w;
            &&& from < accept && to < accept < forward_chain(s, guard).len()
            &&& forward_chain(s, guard)[from] == "    iifname \""@ + mgmts[m] + "\" drop"@
            &&& forward_chain(s, guard)[to] == "    oifname \""@ + mgmts[m] + "\" drop"@
            &&& forward_chain(s, guard)[accept] == "    oifname \""@ + wans[w] + "\" accept"@
        }),
{
    let mgmts = role_names(s, "mgmt"@);
    let wans = role_names(s, "wan"@);
    lemma_concat_even(mgmts.len(), management_forward(mgmts), 2, m, 0);
    lemma_concat_even(mgmts.len(), management_forward(mgmts), 2, m, 1);
    lemma_concat_even(wans.len(), wan_forward(wans), 1, w, 0);
}

/// The web interface is found only on interfaces that the state exposes it
/// on.
pub proof fn law_web_interface_is_found_where_exposed(s: DesiredView, k: int)
    requires
        2 <= k < prerouting_chain(s).len() - 1,
    ensures
        exists|e: int|
            0 <= e < exposure_of(s).len() && dnat_lines(
                (#[trigger] exposure_of(s)[e]).0,
                reachable_addresses(exposure_of(s)[e].1),
            ).contains(prerouting_chain(s)[k]),
{
    let x = exposure_of(s);
    let f = ui_dnat(x);
    assert(prerouting_chain(s)[k] == concat(x.len(), f)[k - 2]);
    lemma_concat_member(x.len(), f, k - 2);
    let e = choose|e: int| 0 <= e < x.len() && (#[trigger] f(e)).contains(concat(x.len(), f)[k - 2]);
    assert(f(e) == dnat_lines(x[e].0, reachable_addresses(x[e].1)));
}

/// Of what comes in from a WAN, replies are accepted and everything else is
/// dropped right behind that.
pub proof fn law_wans_let_in_replies_only(s: DesiredView, i: int)
    requires
        0 <= i < s.interfaces.len(),
        has_role(s.interfaces[i], "wan"@),
    ensures
        exists|k: int|
            0 <= k < input_chain(s).len() - 1 && #[trigger] input_chain(s)[k] == "    iifname \""@
                + s.interfaces[i].name + "\" ct state established,related accept"@ && input_chain(s)[k + 1]
                == "    iifname \""@ + s.interfaces[i].name + "\" drop"@,
{
    let name = s.interfaces[i].name;
    let wans = role_names(s, "wan"@);
    lemma_collects(s.interfaces.len(), role_name(s, "wan"@), i);
    let w = choose|w: int| 0 <= w < wans.len() && wans[w] == name;
    let extra = concat(s.nft_extra.len(), extra_line(s.nft_extra));
    let f = wan_input(wans);
    lemma_concat_even(wans.len(), f, 2, w, 0);
    lemma_concat_even(wans.len(), f, 2, w, 1);
    let k = 3 + extra.len() + 2 * w;
    assert(input_chain(s)[k] == concat(wans.len(), f)[w * 2]);
    assert(input_chain(s)[k + 1] == concat(wans.len(), f)[w * 2 + 1]);
}

/// Whether place `k` stands in the chain that is opened at place `a`.
pub open spec fn in_chain(rules: Seq<Seq<char>>, a: int, k: int) -> bool {
    0 <= a < k < rules.len() && forall|j: int| a < j <= k ==> #[trigger] rules[j] != "  }"@
}

/// Whether a rule stands in a chain that these words open.
pub open spec fn chain_holds(rules: Seq<Seq<char>>, chain: Seq<char>, rule: Seq<char>) -> bool {
    exists|a: int, k: int| #[trigger] in_chain(rules, a, k) && rules[a] == chain && rules[k] == rule
}

/// Whether a line can be a rule: it is set in further than the end of a chain.
spec fn set_in(line: Seq<char>) -> bool {
    line.len() > 2 && line[2] == ' '
}

spec fn all_set_in(lines: Seq<Seq<char>>) -> bool {
    forall|k: int| 0 <= k < lines.len() ==> set_in(#[trigger] lines[k])
}

proof fn lemma_set_in_is_no_end(line: Seq<char>)
    requires
        set_in(line),
    ensures
        line != "  }"@,
{
    reveal_strlit("  }");
    assert("  }"@[2] == '}');
}

proof fn lemma_prefix_set_in(a: Seq<char>, b: Seq<char>)
    requires
        set_in(a),
    ensures
        set_in(a + b),
{
    assert((a + b)[2] == a[2]);
}

proof fn lemma_concat_set_in(n: nat, f: spec_fn(int) -> Seq<Seq<char>>)
    requires
        forall|i: int| 0 <= i < n ==> all_set_in(#[trigger] f(i)),
    ensures
        all_set_in(concat(n, f)),
{
    assert forall|k: int| 0 <= k < concat(n, f).len() implies set_in(#[trigger] concat(n, f)[k]) by {
        lemma_concat_member(n, f, k);
        let i = choose|i: int| 0 <= i < n && (#[trigger] f(i)).contains(concat(n, f)[k]);
        let piece = f(i);
        let line = concat(n, f)[k];
        let e = choose|e: int| 0 <= e < piece.len() && piece[e] == line;
        assert(set_in(piece[e]));
    }
}

/// A rule in a chain is a rule of the whole.
proof fn lemma_chain_holds(head: Seq<Seq<char>>, opening: Seq<char>, body: Seq<Seq<char>>, tail: Seq<Seq<char>>, rule: Seq<char>)
    requires
        all_set_in(body),
        body.contains(rule),
    ensures
        chain_holds(head + (seq![opening] + body) + tail, opening, rule),
{
    let all = head + (seq![opening] + body) + tail;
    let e = choose|e: int| 0 <= e < body.len() && body[e] == rule;
    let a = head.len() as int;
    let k = a + 1 + e;
    assert(all[a] == opening);
    assert(all[k] == rule);
    assert forall|j: int| a < j <= k implies #[trigger] all[j] != "  }"@ by {
        assert(all[j] == body[j - a - 1]);
        lemma_set_in_is_no_end(body[j - a - 1]);
    }
    assert(in_chain(all, a, k));
}

/// The rules of the forward chain.
spec fn forward_body(s: DesiredView, guard: bool) -> Seq<Seq<char>> {
    forward_head(guard).skip(1) + concat(exposure_of(s).len(), ui_forward(exposure_of(s))) + management_rules(s)
        + wan_rules(s)
}

proof fn lemma_forward_body(s: DesiredView, guard: bool)
    ensures
        all_set_in(forward_body(s, guard)),
        forward_chain(s, guard) == seq!["  chain forward {"@] + forward_body(s, guard) + seq!["  }"@],
{
    reveal_strlit("    type filter hook forward priority filter; policy drop;");
    reveal_strlit("    drop");
    reveal_strlit("    ct state established,related accept");
    reveal_strlit("    iifname \"");
    reveal_strlit("    oifname \"");
    let e = exposure_of(s);
    let mgmts = role_names(s, "mgmt"@);
    let wans = role_names(s, "wan"@);
    let head = forward_head(guard).skip(1);
    assert(set_in("    iifname \""@) && set_in("    oifname \""@));
    lemma_prefix_set_in("    iifname \""@, FWD_MGMT_VETH@);
    lemma_prefix_set_in("    iifname \""@ + FWD_MGMT_VETH@, "\" accept"@);
    assert(all_set_in(head));
    assert forall|i: int| 0 <= i < e.len() implies all_set_in(#[trigger] ui_forward(e)(i)) by {
        assert(set_in(ui_forward(e)(i)[0]));
    }
    lemma_concat_set_in(e.len(), ui_forward(e));
    assert forall|i: int| 0 <= i < mgmts.len() implies all_set_in(#[trigger] management_forward(mgmts)(i)) by {
        assert(set_in(management_forward(mgmts)(i)[0]));
        assert(set_in(management_forward(mgmts)(i)[1]));
    }
    lemma_concat_set_in(mgmts.len(), management_forward(mgmts));
    assert forall|i: int| 0 <= i < wans.len() implies all_set_in(#[trigger] wan_forward(wans)(i)) by {
        assert(set_in(wan_forward(wans)(i)[0]));
    }
    lemma_concat_set_in(wans.len(), wan_forward(wans));
    assert(forward_head(guard) =~= seq!["  chain forward {"@] + head);
    assert(forward_chain(s, guard) =~= seq!["  chain forward {"@] + forward_body(s, guard) + seq!["  }"@]);
}

/// What the forward chain holds, the rule set holds in that chain.
proof fn lemma_forwarded(s: DesiredView, guard: bool, rule: Seq<char>)
    requires
        forward_body(s, guard).contains(rule),
    ensures
        chain_holds(ruleset(s, guard), "  chain forward {"@, rule),
{
    lemma_forward_body(s, guard);
    let head = seq!["flush ruleset"@] + host_pull_lines() + seq!["table inet fwos {"@] + input_chain(s);
    let tail = seq!["  }"@] + prerouting_chain(s) + postrouting_chain(s) + seq!["}"@];
    let body = forward_body(s, guard);
    lemma_chain_holds(head, "  chain forward {"@, body, tail, rule);
    let opening = seq!["  chain forward {"@];
    lemma_tail(head, opening + body, prerouting_chain(s), postrouting_chain(s), "  }"@, "}"@);
}

proof fn lemma_tail<T>(head: Seq<T>, f: Seq<T>, p: Seq<T>, q: Seq<T>, end: T, last: T)
    ensures
        head + (f + seq![end]) + p + q + seq![last] == head + f + (seq![end] + p + q + seq![last]),
{
    assert(head + (f + seq![end]) + p + q + seq![last] =~= head + f + (seq![end] + p + q + seq![last]));
}

/// A name in a role is among the names in that role.
proof fn lemma_role_name(s: DesiredView, role: Seq<char>, i: int)
    requires
        0 <= i < s.interfaces.len(),
        s.interfaces[i].role == Some(role),
    ensures
        role_names(s, role).contains(s.interfaces[i].name),
{
    lemma_collects(s.interfaces.len(), role_name(s, role), i);
}

/// What leaves by a WAN is accepted in the forward chain, for every WAN and
/// whatever else the state has.
pub proof fn law_every_wan_is_reached(s: DesiredView, guard: bool, i: int)
    requires
        0 <= i < s.interfaces.len(),
        s.interfaces[i].role == Some("wan"@),
    ensures
        chain_holds(
            ruleset(s, guard),
            "  chain forward {"@,
            "    oifname \""@ + s.interfaces[i].name + "\" accept"@,
        ),
{
    let wans = role_names(s, "wan"@);
    let rule = "    oifname \""@ + s.interfaces[i].name + "\" accept"@;
    lemma_role_name(s, "wan"@, i);
    let w = choose|w: int| 0 <= w < wans.len() && wans[w] == s.interfaces[i].name;
    let f = wan_forward(wans);
    assert(f(w)[0] == rule);
    lemma_concat_has(wans.len(), f, w, rule);
    let c = wan_rules(s);
    let e = choose|e: int| 0 <= e < c.len() && c[e] == rule;
    let b = forward_body(s, guard);
    assert(b[b.len() - c.len() + e] == rule);
    lemma_forwarded(s, guard, rule);
}

/// The forward chain drops what no rule accepts, accepts replies, and accepts
/// what comes from the appliance itself, in this order.
pub proof fn law_forwarding_is_closed_but_for_replies(s: DesiredView, guard: bool)
    ensures
        forward_chain(s, guard)[0] == "  chain forward {"@,
        forward_chain(s, guard)[1] == "    type filter hook forward priority filter; policy drop;"@,
        forward_chain(s, guard).last() == "  }"@,
        chain_holds(ruleset(s, guard), "  chain forward {"@, "    type filter hook forward priority filter; policy drop;"@),
        chain_holds(ruleset(s, guard), "  chain forward {"@, "    ct state established,related accept"@),
        chain_holds(ruleset(s, guard), "  chain forward {"@, "    iifname \""@ + FWD_MGMT_VETH@ + "\" accept"@),
{
    let b = forward_body(s, guard);
    let n: int = if guard {
        1
    } else {
        0
    };
    lemma_forward_body(s, guard);
    assert(b[0] == "    type filter hook forward priority filter; policy drop;"@);
    assert(b[1 + n] == "    ct state established,related accept"@);
    assert(b[2 + n] == "    iifname \""@ + FWD_MGMT_VETH@ + "\" accept"@);
    lemma_forwarded(s, guard, b[0]);
    lemma_forwarded(s, guard, b[1 + n]);
    lemma_forwarded(s, guard, b[2 + n]);
}

/// Without the guard, every rule of the forward chain is one of these: the
/// policy, replies, the appliance itself, the way to the web interface on an
/// interface that is exposed, the end of a management interface, and the way
/// out by a WAN. With the guard, a rule that drops everything is added.
pub proof fn law_nothing_else_is_forwarded(s: DesiredView, guard: bool, k: int)
    requires
        1 <= k < forward_chain(s, guard).len() - 1,
    ensures
        ({
            let rule = forward_chain(s, guard)[k];
            ||| rule == "    type filter hook forward priority filter; policy drop;"@
            ||| rule == "    ct state established,related accept"@
            ||| rule == "    iifname \""@ + FWD_MGMT_VETH@ + "\" accept"@
            ||| guard && rule == "    drop"@
            ||| exists|e: int|
                0 <= e < exposure_of(s).len() && rule == "    iifname \""@ + (#[trigger] exposure_of(s)[e]).0
                    + "\" oifname \""@ + FWD_MGMT_VETH@ + "\" tcp dport 443 accept"@
            ||| exists|i: int|
                0 <= i < s.interfaces.len() && (#[trigger] s.interfaces[i]).role == Some("mgmt"@) && (rule
                    == "    iifname \""@ + s.interfaces[i].name + "\" drop"@ || rule == "    oifname \""@
                    + s.interfaces[i].name + "\" drop"@)
            ||| exists|i: int|
                0 <= i < s.interfaces.len() && (#[trigger] s.interfaces[i]).role == Some("wan"@) && rule
                    == "    oifname \""@ + s.interfaces[i].name + "\" accept"@
        }),
{
    let b = forward_body(s, guard);
    lemma_forward_body(s, guard);
    let head = forward_head(guard).skip(1);
    let x = exposure_of(s);
    let ui = concat(x.len(), ui_forward(x));
    let mgmts = role_names(s, "mgmt"@);
    let m = management_rules(s);
    let wans = role_names(s, "wan"@);
    let w = wan_rules(s);
    let j = k - 1;
    assert(forward_chain(s, guard)[k] == b[j]);
    if j < head.len() {
        assert(b[j] == head[j]);
    } else if j < head.len() + ui.len() {
        let e = j - head.len();
        assert(b[j] == ui[e]);
        lemma_concat_member(x.len(), ui_forward(x), e);
        let i = choose|i: int| 0 <= i < x.len() && (#[trigger] ui_forward(x)(i)).contains(ui[e]);
        assert(ui_forward(x)(i)[0] == ui[e]);
        assert(x[i] == exposure_of(s)[i]);
    } else if j < head.len() + ui.len() + m.len() {
        let e = j - head.len() - ui.len();
        assert(b[j] == m[e]);
        lemma_concat_member(mgmts.len(), management_forward(mgmts), e);
        let i = choose|i: int| 0 <= i < mgmts.len() && (#[trigger] management_forward(mgmts)(i)).contains(m[e]);
        lemma_collected(s.interfaces.len(), role_name(s, "mgmt"@), i);
        let r = role_name(s, "mgmt"@);
        let n = choose|n: int| 0 <= n < s.interfaces.len() && #[trigger] r(n) == Some(mgmts[i]);
        assert(s.interfaces[n].name == mgmts[i]);
    } else {
        let e = j - head.len() - ui.len() - m.len();
        assert(b[j] == w[e]);
        lemma_concat_member(wans.len(), wan_forward(wans), e);
        let i = choose|i: int| 0 <= i < wans.len() && (#[trigger] wan_forward(wans)(i)).contains(w[e]);
        lemma_collected(s.interfaces.len(), role_name(s, "wan"@), i);
        let r = role_name(s, "wan"@);
        let n = choose|n: int| 0 <= n < s.interfaces.len() && #[trigger] r(n) == Some(wans[i]);
        assert(s.interfaces[n].name == wans[i]);
    }
}

/// Nothing is forwarded from or to a management interface: both are dropped, for
/// every one of them.
pub proof fn law_every_management_interface_is_shut_off(s: DesiredView, guard: bool, i: int)
    requires
        0 <= i < s.interfaces.len(),
        s.interfaces[i].role == Some("mgmt"@),
    ensures
        chain_holds(
            ruleset(s, guard),
            "  chain forward {"@,
            "    iifname \""@ + s.interfaces[i].name + "\" drop"@,
        ),
        chain_holds(
            ruleset(s, guard),
            "  chain forward {"@,
            "    oifname \""@ + s.interfaces[i].name + "\" drop"@,
        ),
{
    let mgmts = role_names(s, "mgmt"@);
    let from = "    iifname \""@ + s.interfaces[i].name + "\" drop"@;
    let to = "    oifname \""@ + s.interfaces[i].name + "\" drop"@;
    lemma_role_name(s, "mgmt"@, i);
    let m = choose|m: int| 0 <= m < mgmts.len() && mgmts[m] == s.interfaces[i].name;
    let f = management_forward(mgmts);
    assert(f(m)[0] == from && f(m)[1] == to);
    lemma_concat_has(mgmts.len(), f, m, from);
    lemma_concat_has(mgmts.len(), f, m, to);
    let c = management_rules(s);
    let b = forward_body(s, guard);
    let start = forward_head(guard).skip(1).len() + concat(exposure_of(s).len(), ui_forward(exposure_of(s))).len();
    let x = choose|x: int| 0 <= x < c.len() && c[x] == from;
    let y = choose|y: int| 0 <= y < c.len() && c[y] == to;
    assert(b[start + x] == from && b[start + y] == to);
    lemma_forwarded(s, guard, from);
    lemma_forwarded(s, guard, to);
}

/// On every interface that is exposed, what goes to the web interface is let
/// through, and what is sent to port 443 of each address that may be exposed is
/// sent on to it.
pub proof fn law_every_exposed_address_leads_to_the_web_interface(s: DesiredView, guard: bool, e: int, ip: Seq<char>)
    requires
        0 <= e < exposure_of(s).len(),
        reachable_addresses(exposure_of(s)[e].1).contains(ip),
    ensures
        ({
            let name = exposure_of(s)[e].0;
            &&& chain_holds(
                ruleset(s, guard),
                "  chain forward {"@,
                "    iifname \""@ + name + "\" oifname \""@ + FWD_MGMT_VETH@ + "\" tcp dport 443 accept"@,
            )
            &&& ip.contains(':') ==> chain_holds(
                ruleset(s, guard),
                "  chain prerouting {"@,
                "    iifname \""@ + name + "\" ip6 daddr "@ + ip + " tcp dport 443 dnat ip6 to "@ + MGMT_FWD_IP6@,
            )
            &&& !ip.contains(':') ==> chain_holds(
                ruleset(s, guard),
                "  chain prerouting {"@,
                "    iifname \""@ + name + "\" ip daddr "@ + ip + " tcp dport 443 dnat ip to "@ + MGMT_FWD_IP@,
            )
        }),
{
    let x = exposure_of(s);
    let name = x[e].0;
    let ips = reachable_addresses(x[e].1);
    let rule = "    iifname \""@ + name + "\" oifname \""@ + FWD_MGMT_VETH@ + "\" tcp dport 443 accept"@;
    assert(ui_forward(x)(e)[0] == rule);
    lemma_concat_has(x.len(), ui_forward(x), e, rule);
    let ui = concat(x.len(), ui_forward(x));
    let b = forward_body(s, guard);
    let n = choose|n: int| 0 <= n < ui.len() && ui[n] == rule;
    assert(b[forward_head(guard).skip(1).len() + n] == rule);
    lemma_forwarded(s, guard, rule);
    let k = choose|k: int| 0 <= k < ips.len() && ips[k] == ip;
    let f = dnat_line(name, ips);
    let line = f(k)[0];
    assert(f(k).contains(line));
    lemma_concat_has(ips.len(), f, k, line);
    assert(ui_dnat(x)(e) == concat(ips.len(), f));
    lemma_concat_has(x.len(), ui_dnat(x), e, line);
    lemma_prerouted(s, guard, line);
}

/// What is sent to the web interface is let through on every exposed interface,
/// also where none of its addresses may be exposed; then it is found there at
/// any address.
pub proof fn law_every_exposed_interface_leads_to_the_web_interface(s: DesiredView, guard: bool, e: int)
    requires
        0 <= e < exposure_of(s).len(),
        reachable_addresses(exposure_of(s)[e].1).len() == 0,
    ensures
        chain_holds(
            ruleset(s, guard),
            "  chain forward {"@,
            "    iifname \""@ + exposure_of(s)[e].0 + "\" oifname \""@ + FWD_MGMT_VETH@
                + "\" tcp dport 443 accept"@,
        ),
        chain_holds(
            ruleset(s, guard),
            "  chain prerouting {"@,
            "    iifname \""@ + exposure_of(s)[e].0 + "\" tcp dport 443 dnat ip to "@ + MGMT_FWD_IP@,
        ),
{
    let x = exposure_of(s);
    let name = x[e].0;
    let rule = "    iifname \""@ + name + "\" oifname \""@ + FWD_MGMT_VETH@ + "\" tcp dport 443 accept"@;
    assert(ui_forward(x)(e)[0] == rule);
    lemma_concat_has(x.len(), ui_forward(x), e, rule);
    let ui = concat(x.len(), ui_forward(x));
    let b = forward_body(s, guard);
    let n = choose|n: int| 0 <= n < ui.len() && ui[n] == rule;
    assert(b[forward_head(guard).skip(1).len() + n] == rule);
    lemma_forwarded(s, guard, rule);
    let line = "    iifname \""@ + name + "\" tcp dport 443 dnat ip to "@ + MGMT_FWD_IP@;
    assert(ui_dnat(x)(e)[0] == line);
    lemma_concat_has(x.len(), ui_dnat(x), e, line);
    lemma_prerouted(s, guard, line);
}

/// What the prerouting chain holds, the rule set holds in that chain.
proof fn lemma_prerouted(s: DesiredView, guard: bool, rule: Seq<char>)
    requires
        exposure_of(s).len() > 0,
        concat(exposure_of(s).len(), ui_dnat(exposure_of(s))).contains(rule),
    ensures
        chain_holds(ruleset(s, guard), "  chain prerouting {"@, rule),
{
    reveal_strlit("    type nat hook prerouting priority dstnat; policy accept;");
    reveal_strlit("    iifname \"");
    let x = exposure_of(s);
    let f = ui_dnat(x);
    let lines = concat(x.len(), f);
    assert(set_in("    iifname \""@));
    assert forall|i: int| 0 <= i < x.len() implies all_set_in(#[trigger] f(i)) by {
        let ips = reachable_addresses(x[i].1);
        if ips.len() == 0 {
            assert(set_in(f(i)[0]));
        } else {
            let g = dnat_line(x[i].0, ips);
            assert forall|j: int| 0 <= j < ips.len() implies all_set_in(#[trigger] g(j)) by {
                assert(set_in(g(j)[0]));
            }
            lemma_concat_set_in(ips.len(), g);
        }
    }
    lemma_concat_set_in(x.len(), f);
    let kind = seq!["    type nat hook prerouting priority dstnat; policy accept;"@];
    let body = kind + lines;
    assert(all_set_in(body));
    let e = choose|e: int| 0 <= e < lines.len() && lines[e] == rule;
    assert(body[1 + e] == rule);
    let head = seq!["flush ruleset"@] + host_pull_lines() + seq!["table inet fwos {"@] + input_chain(s)
        + forward_chain(s, guard);
    let opening = seq!["  chain prerouting {"@];
    let tail = seq!["  }"@] + postrouting_chain(s) + seq!["}"@];
    lemma_chain_holds(head, "  chain prerouting {"@, body, tail, rule);
    assert(prerouting_chain(s) =~= opening + body + seq!["  }"@]);
    assert(head + (opening + body + seq!["  }"@]) + postrouting_chain(s) + seq!["}"@] =~= head + (opening + body) + tail);
}

/// Where a WAN has an IPv4 address, what leaves by any WAN is masqueraded.
pub proof fn law_every_wan_is_masqueraded(s: DesiredView, guard: bool, i: int, v: int, a: int)
    requires
        0 <= i < s.interfaces.len(),
        s.interfaces[i].role == Some("wan"@),
        0 <= v < s.interfaces.len(),
        s.interfaces[v].role == Some("wan"@),
        0 <= a < s.interfaces[v].addresses.len(),
        s.interfaces[v].addresses[a].contains('.'),
    ensures
        chain_holds(
            ruleset(s, guard),
            "  chain postrouting {"@,
            "    oifname \""@ + s.interfaces[i].name + "\" masquerade"@,
        ),
{
    reveal_strlit("    type nat hook postrouting priority srcnat; policy accept;");
    reveal_strlit("    oifname \"");
    let wans = role_names(s, "wan"@);
    let rule = "    oifname \""@ + s.interfaces[i].name + "\" masquerade"@;
    lemma_role_name(s, "wan"@, i);
    let w = choose|w: int| 0 <= w < wans.len() && wans[w] == s.interfaces[i].name;
    let f = masquerade(wans);
    assert(f(w)[0] == rule);
    lemma_concat_has(wans.len(), f, w, rule);
    let lines = concat(wans.len(), f);
    assert(set_in("    oifname \""@));
    assert forall|j: int| 0 <= j < wans.len() implies all_set_in(#[trigger] f(j)) by {
        assert(set_in(f(j)[0]));
    }
    lemma_concat_set_in(wans.len(), f);
    let body = seq!["    type nat hook postrouting priority srcnat; policy accept;"@] + lines;
    assert(all_set_in(body));
    let e = choose|e: int| 0 <= e < lines.len() && lines[e] == rule;
    assert(body[1 + e] == rule);
    assert(has_v4_wan(s));
    let head = seq!["flush ruleset"@] + host_pull_lines() + seq!["table inet fwos {"@] + input_chain(s)
        + forward_chain(s, guard) + prerouting_chain(s);
    let opening = seq!["  chain postrouting {"@];
    let tail = seq!["  }"@, "}"@];
    lemma_chain_holds(head, "  chain postrouting {"@, body, tail, rule);
    assert(postrouting_chain(s) =~= opening + body + seq!["  }"@]);
    assert(head + (opening + body + seq!["  }"@]) + seq!["}"@] =~= head + (opening + body) + tail);
}

/// Every rule that the state adds stands in the input chain, before the WANs
/// are shut; and what comes in on the loopback device is accepted.
pub proof fn law_every_added_rule_comes_before_the_wans(s: DesiredView, x: int, k: int)
    requires
        0 <= x < s.nft_extra.len(),
        3 + s.nft_extra.len() <= k < input_chain(s).len() - 1,
    ensures
        input_chain(s)[0] == "  chain input {"@,
        input_chain(s)[1] == "    type filter hook input priority filter; policy accept;"@,
        input_chain(s)[2] == "    iifname \"lo\" accept"@,
        input_chain(s)[3 + x] == "    "@ + s.nft_extra[x],
        exists|i: int|
            0 <= i < s.interfaces.len() && (#[trigger] s.interfaces[i]).role == Some("wan"@) && (input_chain(s)[k]
                == "    iifname \""@ + s.interfaces[i].name + "\" ct state established,related accept"@
                || input_chain(s)[k] == "    iifname \""@ + s.interfaces[i].name + "\" drop"@),
{
    let f = extra_line(s.nft_extra);
    let wans = role_names(s, "wan"@);
    lemma_concat_len(s.nft_extra.len(), f, 1);
    lemma_concat_even(s.nft_extra.len(), f, 1, x, 0);
    let c = concat(wans.len(), wan_input(wans));
    let e = k - 3 - s.nft_extra.len();
    assert(input_chain(s)[k] == c[e]);
    lemma_concat_member(wans.len(), wan_input(wans), e);
    let i = choose|i: int| 0 <= i < wans.len() && (#[trigger] wan_input(wans)(i)).contains(c[e]);
    let r = role_name(s, "wan"@);
    lemma_collected(s.interfaces.len(), r, i);
    let n = choose|n: int| 0 <= n < s.interfaces.len() && #[trigger] r(n) == Some(wans[i]);
    assert(s.interfaces[n].name == wans[i]);
}

/// The host's own traffic is masqueraded under every state.
pub proof fn law_host_reaches_the_outside(s: DesiredView, guard: bool)
    ensures
        ruleset(s, guard)[0] == "flush ruleset"@,
        ruleset(s, guard)[1] == "table ip fwos-pull {"@,
        ruleset(s, guard)[2] == "  chain postrouting {"@,
        ruleset(s, guard)[3] == "    type nat hook postrouting priority srcnat; policy accept;"@,
        ruleset(s, guard)[4] == "    ip saddr 169.254.127.0/30 masquerade"@,
        ruleset(s, guard)[5] == "  }"@,
        ruleset(s, guard)[6] == "}"@,
        ruleset(s, guard)[7] == "table inet fwos {"@,
        ruleset(s, guard)[8] == "  chain input {"@,
        ruleset(s, guard).last() == "}"@,
{
}

// ---------------------------------------------------------------------------
// Before the appliance has an owner
// ---------------------------------------------------------------------------

/// The family of an address as nftables names it.
pub open spec fn family(ip: Seq<char>) -> Seq<char> {
    if ip.contains(':') {
        "ip6"@
    } else {
        "ip"@
    }
}

/// The web interface is let through for what was sent to one of the
/// addresses.
pub open spec fn guard_line(nic: Seq<char>, ips: Seq<Seq<char>>) -> spec_fn(int) -> Seq<Seq<char>> {
    |i: int|
        seq![
            "    iifname \""@ + nic + "\" oifname \""@ + FWD_MGMT_VETH@
                + "\" tcp dport 443 ct status dnat ct original "@ + family(ips[i]) + " daddr "@ + ips[i]
                + " accept"@,
        ]
}

/// The addresses of the family that is written with colons, or of the other.
pub open spec fn of_family(ips: Seq<Seq<char>>, v6: bool) -> Seq<Seq<char>> {
    collect(ips.len(), in_family(ips, v6))
}

pub open spec fn in_family(ips: Seq<Seq<char>>, v6: bool) -> spec_fn(int) -> Option<Seq<char>> {
    |i: int|
        if ips[i].contains(':') == v6 {
            Some(ips[i])
        } else {
            None
        }
}

pub open spec fn first_boot_dnat(nic: Seq<char>, ips: Seq<Seq<char>>, v6: bool) -> spec_fn(int) -> Seq<
    Seq<char>,
> {
    |i: int|
        seq![
            if v6 {
                "    iifname \""@ + nic + "\" ip6 daddr "@ + ips[i] + " tcp dport 443 dnat ip6 to "@
                    + MGMT_FWD_IP6@
            } else {
                "    iifname \""@ + nic + "\" ip daddr "@ + ips[i] + " tcp dport 443 dnat ip to "@
                    + MGMT_FWD_IP@
            },
        ]
}

/// The table of one family, where the NIC has addresses of it.
pub open spec fn family_table(nic: Seq<char>, ips: Seq<Seq<char>>, v6: bool) -> Seq<Seq<char>> {
    if ips.len() == 0 {
        Seq::empty()
    } else {
        seq![
            if v6 {
                "table ip6 fwos-first-boot {"@
            } else {
                "table ip fwos-first-boot {"@
            },
            "  chain prerouting {"@,
            "    type nat hook prerouting priority dstnat; policy accept;"@,
        ] + concat(ips.len(), first_boot_dnat(nic, ips, v6)) + seq![
            "  }"@,
            "  chain forward {"@,
            "    type filter hook forward priority filter; policy accept;"@,
            "    iifname \""@ + nic + "\" oifname \""@ + FWD_MGMT_VETH@ + "\" tcp dport 443 accept"@,
            "  }"@,
            "}"@,
        ]
    }
}

/// The rules under which the web interface is reached at the addresses of one
/// NIC, and by no other way.
pub open spec fn first_boot_lines(nic: Seq<char>, ips: Seq<Seq<char>>) -> Seq<Seq<char>> {
    seq![
        "table inet fwos-first-boot {"@,
        "  chain forward {"@,
        "    type filter hook forward priority filter; policy accept;"@,
    ] + concat(ips.len(), guard_line(nic, ips)) + seq![
        "    oifname \""@ + FWD_MGMT_VETH@ + "\" tcp dport 443 drop"@,
        "  }"@,
        "}"@,
    ] + family_table(nic, of_family(ips, false), false) + family_table(nic, of_family(ips, true), true)
}

fn select_family(ips: &[String], v6: bool) -> (r: Vec<String>)
    ensures
        texts(r@) == of_family(texts(ips@), v6),
{
    let ghost f = in_family(texts(ips@), v6);
    let mut out: Vec<String> = Vec::new();
    let mut i: usize = 0;
    assert(texts(out@) == Seq::<Seq<char>>::empty());
    while i < ips.len()
        invariant
            f == in_family(texts(ips@), v6),
            i <= ips@.len(),
            texts(out@) == collect(i as nat, f),
        decreases ips@.len() - i,
    {
        assert(texts(ips@)[i as int] == ips@[i as int]@);
        if text::has_char(ips[i].as_str(), ':') == v6 {
            add_text(&mut out, ips[i].clone());
        }
        i = i + 1;
    }
    out
}

fn push_guard(lines: &mut Vec<String>, nic: &str, ips: &[String])
    ensures
        texts(final(lines)@) == texts(old(lines)@) + concat(ips@.len(), guard_line(nic@, texts(ips@))),
{
    let ghost base = texts(lines@);
    let ghost f = guard_line(nic@, texts(ips@));
    let mut i: usize = 0;
    assert(base + concat(0, f) == base);
    while i < ips.len()
        invariant
            f == guard_line(nic@, texts(ips@)),
            i <= ips@.len(),
            texts(lines@) == base + concat(i as nat, f),
        decreases ips@.len() - i,
    {
        assert(texts(ips@)[i as int] == ips@[i as int]@);
        let ip = ips[i].as_str();
        let family = if text::has_char(ip, ':') {
            "ip6"
        } else {
            "ip"
        };
        add_text(
            lines,
            "    iifname \"".to_owned().concat(nic).concat("\" oifname \"").concat(FWD_MGMT_VETH).concat(
                "\" tcp dport 443 ct status dnat ct original ",
            ).concat(family).concat(" daddr ").concat(ip).concat(" accept"),
        );
        assert(texts(lines@) == base + (concat(i as nat, f) + f(i as int)));
        i = i + 1;
    }
}

fn push_first_boot_dnat(lines: &mut Vec<String>, nic: &str, ips: &Vec<String>, v6: bool)
    ensures
        texts(final(lines)@) == texts(old(lines)@) + concat(
            ips@.len(),
            first_boot_dnat(nic@, texts(ips@), v6),
        ),
{
    let ghost base = texts(lines@);
    let ghost f = first_boot_dnat(nic@, texts(ips@), v6);
    let mut i: usize = 0;
    assert(base + concat(0, f) == base);
    while i < ips.len()
        invariant
            f == first_boot_dnat(nic@, texts(ips@), v6),
            i <= ips@.len(),
            texts(lines@) == base + concat(i as nat, f),
        decreases ips@.len() - i,
    {
        assert(texts(ips@)[i as int] == ips@[i as int]@);
        let ip = ips[i].as_str();
        if v6 {
            add_text(
                lines,
                "    iifname \"".to_owned().concat(nic).concat("\" ip6 daddr ").concat(ip).concat(
                    " tcp dport 443 dnat ip6 to ",
                ).concat(MGMT_FWD_IP6),
            );
        } else {
            add_text(
                lines,
                "    iifname \"".to_owned().concat(nic).concat("\" ip daddr ").concat(ip).concat(
                    " tcp dport 443 dnat ip to ",
                ).concat(MGMT_FWD_IP),
            );
        }
        assert(texts(lines@) == base + (concat(i as nat, f) + f(i as int)));
        i = i + 1;
    }
}

fn push_family(lines: &mut Vec<String>, nic: &str, ips: &Vec<String>, v6: bool)
    ensures
        texts(final(lines)@) == texts(old(lines)@) + family_table(nic@, texts(ips@), v6),
{
    let ghost base = texts(lines@);
    if ips.len() > 0 {
        if v6 {
            add_text(lines, "table ip6 fwos-first-boot {".to_owned());
        } else {
            add_text(lines, "table ip fwos-first-boot {".to_owned());
        }
        add_text(lines, "  chain prerouting {".to_owned());
        add_text(lines, "    type nat hook prerouting priority dstnat; policy accept;".to_owned());
        push_first_boot_dnat(lines, nic, ips, v6);
        add_text(lines, "  }".to_owned());
        add_text(lines, "  chain forward {".to_owned());
        add_text(lines, "    type filter hook forward priority filter; policy accept;".to_owned());
        add_text(
            lines,
            "    iifname \"".to_owned().concat(nic).concat("\" oifname \"").concat(FWD_MGMT_VETH).concat(
                "\" tcp dport 443 accept",
            ),
        );
        add_text(lines, "  }".to_owned());
        add_text(lines, "}".to_owned());
    }
    assert(texts(lines@) == base + family_table(nic@, texts(ips@), v6));
}

/// The rules under which the web interface is reached at the addresses of one
/// NIC.
pub fn first_boot_nft(nic: &str, ips: &[String]) -> (r: String)
    ensures
        r@ == lines_text(first_boot_lines(nic@, texts(ips@))),
{
    let mut lines: Vec<String> = Vec::new();
    add_text(&mut lines, "table inet fwos-first-boot {".to_owned());
    add_text(&mut lines, "  chain forward {".to_owned());
    add_text(&mut lines, "    type filter hook forward priority filter; policy accept;".to_owned());
    assert(texts(lines@) == seq![
        "table inet fwos-first-boot {"@,
        "  chain forward {"@,
        "    type filter hook forward priority filter; policy accept;"@,
    ]);
    push_guard(&mut lines, nic, ips);
    let ghost before = texts(lines@);
    add_text(
        &mut lines,
        "    oifname \"".to_owned().concat(FWD_MGMT_VETH).concat("\" tcp dport 443 drop"),
    );
    add_text(&mut lines, "  }".to_owned());
    add_text(&mut lines, "}".to_owned());
    assert(texts(lines@) == before + seq![
        "    oifname \""@ + FWD_MGMT_VETH@ + "\" tcp dport 443 drop"@,
        "  }"@,
        "}"@,
    ]);
    let v4 = select_family(ips, false);
    let v6 = select_family(ips, true);
    push_family(&mut lines, nic, &v4, false);
    push_family(&mut lines, nic, &v6, true);
    write_lines(&lines)
}

/// The script that puts those rules in the place of earlier ones in one
/// transaction.
pub open spec fn first_boot_script(nic: Seq<char>, cidrs: Seq<Seq<char>>) -> Seq<char> {
    "destroy table ip fwos-first-boot\ndestroy table ip6 fwos-first-boot\ndestroy table inet fwos-first-boot\n"@
        + lines_text(first_boot_lines(nic, bootstrap_addresses(cidrs)))
}

/// The script that puts the rules for the addresses of one NIC in the place of
/// earlier ones.
pub fn program_first_boot_nft(nic: &str, cidrs: &[String]) -> (r: String)
    ensures
        r@ == first_boot_script(nic@, texts(cidrs@)),
{
    let ips = exposure::bootstrap_expose_ips(cidrs);
    "destroy table ip fwos-first-boot\ndestroy table ip6 fwos-first-boot\ndestroy table inet fwos-first-boot\n".to_owned().concat(
        first_boot_nft(nic, ips.as_slice()).as_str(),
    )
}

/// Whatever does not come from one of the addresses of the NIC is dropped
/// before it reaches the web interface.
pub proof fn law_first_boot_guard_comes_last(nic: Seq<char>, ips: Seq<Seq<char>>)
    ensures
        first_boot_lines(nic, ips).len() > 3 + ips.len(),
        first_boot_lines(nic, ips)[3 + ips.len() as int] == "    oifname \""@ + FWD_MGMT_VETH@
            + "\" tcp dport 443 drop"@,
        forall|i: int|
            0 <= i < ips.len() ==> first_boot_lines(nic, ips)[3 + i] == #[trigger] guard_line(nic, ips)(i)[0],
{
    let f = guard_line(nic, ips);
    lemma_concat_len(ips.len(), f, 1);
    assert forall|i: int| 0 <= i < ips.len() implies first_boot_lines(nic, ips)[3 + i]
        == #[trigger] guard_line(nic, ips)(i)[0] by {
        lemma_concat_even(ips.len(), f, 1, i, 0);
    }
}

/// The rules of an appliance whose last state cannot be read: nothing comes
/// in, nothing is forwarded.
pub open spec fn lockdown_lines() -> Seq<Seq<char>> {
    seq!["flush ruleset"@] + host_pull_lines() + seq![
        "table inet fwos-recovery {"@,
        "  chain input {"@,
        "    type filter hook input priority filter; policy drop;"@,
        "    iifname \"lo\" accept"@,
        "  }"@,
        "  chain forward {"@,
        "    type filter hook forward priority filter; policy drop;"@,
        "  }"@,
        "}"@,
    ]
}

/// The rules of an appliance whose last state cannot be read.
pub fn lockdown_nft() -> (r: String)
    ensures
        r@ == lines_text(lockdown_lines()),
{
    let mut lines: Vec<String> = Vec::new();
    add_text(&mut lines, "flush ruleset".to_owned());
    push_host_pull(&mut lines);
    add_text(&mut lines, "table inet fwos-recovery {".to_owned());
    add_text(&mut lines, "  chain input {".to_owned());
    add_text(&mut lines, "    type filter hook input priority filter; policy drop;".to_owned());
    add_text(&mut lines, "    iifname \"lo\" accept".to_owned());
    add_text(&mut lines, "  }".to_owned());
    add_text(&mut lines, "  chain forward {".to_owned());
    add_text(&mut lines, "    type filter hook forward priority filter; policy drop;".to_owned());
    add_text(&mut lines, "  }".to_owned());
    add_text(&mut lines, "}".to_owned());
    assert(texts(lines@) == lockdown_lines());
    write_lines(&lines)
}

/// Before the appliance has an owner, what is sent to port 443 of each of the
/// NIC's addresses is sent on to the web interface, and let through there.
pub proof fn law_every_first_address_leads_to_the_web_interface(nic: Seq<char>, ips: Seq<Seq<char>>, k: int)
    requires
        0 <= k < ips.len(),
    ensures
        ({
            let rules = first_boot_lines(nic, ips);
            let ip = ips[k];
            &&& ip.contains(':') ==> chain_holds(
                rules,
                "  chain prerouting {"@,
                "    iifname \""@ + nic + "\" ip6 daddr "@ + ip + " tcp dport 443 dnat ip6 to "@ + MGMT_FWD_IP6@,
            ) && chain_holds(
                rules,
                "  chain forward {"@,
                "    iifname \""@ + nic + "\" oifname \""@ + FWD_MGMT_VETH@
                    + "\" tcp dport 443 ct status dnat ct original "@ + "ip6"@ + " daddr "@ + ip + " accept"@,
            )
            &&& !ip.contains(':') ==> chain_holds(
                rules,
                "  chain prerouting {"@,
                "    iifname \""@ + nic + "\" ip daddr "@ + ip + " tcp dport 443 dnat ip to "@ + MGMT_FWD_IP@,
            ) && chain_holds(
                rules,
                "  chain forward {"@,
                "    iifname \""@ + nic + "\" oifname \""@ + FWD_MGMT_VETH@
                    + "\" tcp dport 443 ct status dnat ct original "@ + "ip"@ + " daddr "@ + ip + " accept"@,
            )
        }),
{
    reveal_strlit("    iifname \"");
    reveal_strlit("    type filter hook forward priority filter; policy accept;");
    reveal_strlit("    type nat hook prerouting priority dstnat; policy accept;");
    assert(set_in("    iifname \""@));
    let ip = ips[k];
    let v6 = ip.contains(':');
    let g = guard_line(nic, ips);
    let guards = concat(ips.len(), g);
    let rule = g(k)[0];
    assert(g(k).contains(rule));
    lemma_concat_has(ips.len(), g, k, rule);
    assert forall|j: int| 0 <= j < ips.len() implies all_set_in(#[trigger] g(j)) by {
        assert(set_in(g(j)[0]));
    }
    lemma_concat_set_in(ips.len(), g);
    let t4 = family_table(nic, of_family(ips, false), false);
    let t6 = family_table(nic, of_family(ips, true), true);
    let middle = seq!["    oifname \""@ + FWD_MGMT_VETH@ + "\" tcp dport 443 drop"@, "  }"@, "}"@];
    let top = seq!["table inet fwos-first-boot {"@];
    let opening = seq!["  chain forward {"@];
    let body = seq!["    type filter hook forward priority filter; policy accept;"@] + guards;
    assert(all_set_in(body));
    let e = choose|e: int| 0 <= e < guards.len() && guards[e] == rule;
    assert(body[1 + e] == rule);
    lemma_chain_holds(top, "  chain forward {"@, body, middle + t4 + t6, rule);
    let rules = first_boot_lines(nic, ips);
    assert(rules =~= top + (opening + body) + (middle + t4 + t6));
    let own = of_family(ips, v6);
    lemma_collects(ips.len(), in_family(ips, v6), k);
    let n = choose|n: int| 0 <= n < own.len() && own[n] == ip;
    let d = first_boot_dnat(nic, own, v6);
    let line = d(n)[0];
    assert(d(n).contains(line));
    lemma_concat_has(own.len(), d, n, line);
    assert forall|j: int| 0 <= j < own.len() implies all_set_in(#[trigger] d(j)) by {
        assert(set_in(d(j)[0]));
    }
    lemma_concat_set_in(own.len(), d);
    let lines = concat(own.len(), d);
    let inner = seq!["    type nat hook prerouting priority dstnat; policy accept;"@] + lines;
    assert(all_set_in(inner));
    let x = choose|x: int| 0 <= x < lines.len() && lines[x] == line;
    assert(inner[1 + x] == line);
    let begin = top + (opening + body) + middle;
    let table = seq![
        if v6 {
            "table ip6 fwos-first-boot {"@
        } else {
            "table ip fwos-first-boot {"@
        },
    ];
    let pre = seq!["  chain prerouting {"@];
    let rest = seq![
        "  }"@,
        "  chain forward {"@,
        "    type filter hook forward priority filter; policy accept;"@,
        "    iifname \""@ + nic + "\" oifname \""@ + FWD_MGMT_VETH@ + "\" tcp dport 443 accept"@,
        "  }"@,
        "}"@,
    ];
    assert(family_table(nic, own, v6) =~= table + (pre + inner) + rest);
    if v6 {
        lemma_chain_holds(begin + t4 + table, "  chain prerouting {"@, inner, rest, line);
        assert(rules =~= begin + t4 + table + (pre + inner) + rest);
    } else {
        lemma_chain_holds(begin + table, "  chain prerouting {"@, inner, rest + t6, line);
        assert(rules =~= begin + table + (pre + inner) + (rest + t6));
    }
}

/// Where the NIC has an address of a family, the table of that family lets
/// through what is sent on to the web interface.
pub proof fn law_first_boot_tables_let_it_through(nic: Seq<char>, ips: Seq<Seq<char>>, k: int)
    requires
        0 <= k < ips.len(),
    ensures
        ({
            let rules = first_boot_lines(nic, ips);
            let table = if ips[k].contains(':') {
                "table ip6 fwos-first-boot {"@
            } else {
                "table ip fwos-first-boot {"@
            };
            rules.contains(table) && chain_holds(
                rules,
                "  chain forward {"@,
                "    iifname \""@ + nic + "\" oifname \""@ + FWD_MGMT_VETH@ + "\" tcp dport 443 accept"@,
            )
        }),
{
    reveal_strlit("    iifname \"");
    reveal_strlit("    type filter hook forward priority filter; policy accept;");
    assert(set_in("    iifname \""@));
    let ip = ips[k];
    let v6 = ip.contains(':');
    let rules = first_boot_lines(nic, ips);
    let t4 = family_table(nic, of_family(ips, false), false);
    let t6 = family_table(nic, of_family(ips, true), true);
    let own = of_family(ips, v6);
    lemma_collects(ips.len(), in_family(ips, v6), k);
    assert(own.len() > 0);
    let begin = seq![
        "table inet fwos-first-boot {"@,
        "  chain forward {"@,
        "    type filter hook forward priority filter; policy accept;"@,
    ] + concat(ips.len(), guard_line(nic, ips)) + seq![
        "    oifname \""@ + FWD_MGMT_VETH@ + "\" tcp dport 443 drop"@,
        "  }"@,
        "}"@,
    ];
    let table = seq![
        if v6 {
            "table ip6 fwos-first-boot {"@
        } else {
            "table ip fwos-first-boot {"@
        },
    ];
    let head = table + seq![
        "  chain prerouting {"@,
        "    type nat hook prerouting priority dstnat; policy accept;"@,
    ] + concat(own.len(), first_boot_dnat(nic, own, v6)) + seq!["  }"@];
    let line = "    iifname \""@ + nic + "\" oifname \""@ + FWD_MGMT_VETH@ + "\" tcp dport 443 accept"@;
    let inner = seq!["    type filter hook forward priority filter; policy accept;"@, line];
    let forward = seq!["  chain forward {"@];
    let rest = seq!["  }"@, "}"@];
    assert(all_set_in(inner));
    assert(inner[1] == line);
    assert(family_table(nic, own, v6) =~= head + (forward + inner) + rest);
    if v6 {
        lemma_chain_holds(begin + t4 + head, "  chain forward {"@, inner, rest, line);
        assert(rules =~= begin + t4 + head + (forward + inner) + rest);
        assert(rules[(begin + t4).len() as int] == table[0]);
    } else {
        lemma_chain_holds(begin + head, "  chain forward {"@, inner, rest + t6, line);
        assert(rules =~= begin + head + (forward + inner) + (rest + t6));
        assert(rules[begin.len() as int] == table[0]);
    }
}

} // verus!
