//! What an apply adds to the live network, so that it can be taken back: only
//! what was not there before is an apply's own to undo.

use crate::desired::{DesiredState, DesiredView};
use crate::journal::{bytes_opt, copy_bytes};
use crate::lan;
use crate::lan::{configured_addresses, pair_views, with_lan_address};
use crate::links;
use crate::links::{root_view, roots_alike, same_root, RootQdisc, RootQdiscView};
use crate::steps::{KEA4_CONF, KEA6_CONF, UNBOUND_CONF};
use crate::text;
use crate::text::{add_text, collect, decimal, lemma_collects, print, same, texts};
use vstd::prelude::*;

verus! {

// ---------------------------------------------------------------------------
// What to look at
// ---------------------------------------------------------------------------

/// What is looked at before an apply.
pub struct Survey {
    /// The addresses that only the new state has, with their devices.
    pub addresses: Vec<(String, String)>,
    /// The links that the new state may make.
    pub links: Vec<String>,
    /// The tunnels that the old state has.
    pub tunnels: Vec<String>,
    /// The devices that the new state gives a queueing discipline, and whether
    /// the old state gives them none.
    pub qdiscs: Vec<(String, bool)>,
}

pub open spec fn new_address(old: Seq<(Seq<char>, Seq<char>)>, new: Seq<(Seq<char>, Seq<char>)>) -> spec_fn(
    int,
) -> Option<(Seq<char>, Seq<char>)> {
    |i: int|
        if old.contains(new[i]) {
            None
        } else {
            Some(new[i])
        }
}

/// The addresses that only the second state has.
pub open spec fn new_addresses(old: DesiredView, new: DesiredView) -> Seq<(Seq<char>, Seq<char>)> {
    collect(
        configured_addresses(new).len(),
        new_address(configured_addresses(old), configured_addresses(new)),
    )
}

pub open spec fn tagged_name(s: DesiredView) -> spec_fn(int) -> Option<Seq<char>> {
    |i: int|
        if s.interfaces[i].vlan is Some {
            Some(s.interfaces[i].name)
        } else {
            None
        }
}

pub open spec fn tunnel_names(s: DesiredView) -> Seq<Seq<char>> {
    Seq::new(s.wireguard.len(), |i: int| s.wireguard[i].name)
}

/// The links that a state makes: its tagged interfaces and its tunnels.
pub open spec fn made_links(s: DesiredView) -> Seq<Seq<char>> {
    collect(s.interfaces.len(), tagged_name(s)) + tunnel_names(s)
}

/// Whether a state gives a device a queueing discipline.
pub open spec fn has_qdisc(s: DesiredView, dev: Seq<char>) -> bool {
    exists|i: int| 0 <= i < s.qdiscs.len() && (#[trigger] s.qdiscs[i]).dev == dev
}

pub open spec fn qdisc_devices(old: DesiredView, new: DesiredView) -> Seq<(Seq<char>, bool)> {
    Seq::new(new.qdiscs.len(), |i: int| (new.qdiscs[i].dev, !has_qdisc(old, new.qdiscs[i].dev)))
}

#[verifier::ext_equal]
pub struct SurveyView {
    pub addresses: Seq<(Seq<char>, Seq<char>)>,
    pub links: Seq<Seq<char>>,
    pub tunnels: Seq<Seq<char>>,
    pub qdiscs: Seq<(Seq<char>, bool)>,
}

pub open spec fn device_views(v: Seq<(String, bool)>) -> Seq<(Seq<char>, bool)> {
    Seq::new(v.len(), |i: int| (v[i].0@, v[i].1))
}

impl View for Survey {
    type V = SurveyView;

    open spec fn view(&self) -> SurveyView {
        SurveyView {
            addresses: pair_views(self.addresses@),
            links: texts(self.links@),
            tunnels: texts(self.tunnels@),
            qdiscs: device_views(self.qdiscs@),
        }
    }
}

/// What is looked at before a state takes the place of another.
pub open spec fn survey_of(current: DesiredView, proposed: DesiredView) -> SurveyView {
    let old = with_lan_address(current);
    let new = with_lan_address(proposed);
    SurveyView {
        addresses: new_addresses(old, new),
        links: made_links(new),
        tunnels: tunnel_names(old),
        qdiscs: qdisc_devices(old, new),
    }
}

fn holds_pair(v: &Vec<(String, String)>, a: &str, b: &str) -> (r: bool)
    ensures
        r == pair_views(v@).contains((a@, b@)),
{
    let ghost t = pair_views(v@);
    let mut i: usize = 0;
    while i < v.len()
        invariant
            t == pair_views(v@),
            i <= v@.len(),
            forall|j: int| 0 <= j < i ==> #[trigger] t[j] != (a@, b@),
        decreases v@.len() - i,
    {
        assert(t[i as int] == (v@[i as int].0@, v@[i as int].1@));
        if same(v[i].0.as_str(), a) && same(v[i].1.as_str(), b) {
            return true;
        }
        i = i + 1;
    }
    false
}

fn find_new_addresses(old: &DesiredState, new: &DesiredState) -> (r: Vec<(String, String)>)
    ensures
        pair_views(r@) == new_addresses(old@, new@),
{
    let before = lan::desired_addresses(old);
    let after = lan::desired_addresses(new);
    let ghost a = pair_views(before@);
    let ghost b = pair_views(after@);
    let ghost f = new_address(a, b);
    let mut out: Vec<(String, String)> = Vec::new();
    let mut i: usize = 0;
    assert(pair_views(out@) == Seq::<(Seq<char>, Seq<char>)>::empty());
    while i < after.len()
        invariant
            a == pair_views(before@),
            b == pair_views(after@),
            f == new_address(a, b),
            i <= after@.len(),
            pair_views(out@) == collect(i as nat, f),
        decreases after@.len() - i,
    {
        assert(b[i as int] == (after@[i as int].0@, after@[i as int].1@));
        if !holds_pair(&before, after[i].0.as_str(), after[i].1.as_str()) {
            let ghost was = out@;
            out.push((after[i].0.clone(), after[i].1.clone()));
            assert(pair_views(out@) == pair_views(was).push(b[i as int]));
        }
        i = i + 1;
    }
    out
}

fn list_tunnels(s: &DesiredState) -> (r: Vec<String>)
    ensures
        texts(r@) == tunnel_names(s@),
{
    let mut out: Vec<String> = Vec::new();
    let mut i: usize = 0;
    while i < s.wireguard.len()
        invariant
            i <= s.wireguard@.len(),
            out@.len() == i,
            forall|j: int| 0 <= j < i ==> (#[trigger] out@[j])@ == s@.wireguard[j].name,
        decreases s.wireguard@.len() - i,
    {
        assert(s@.wireguard[i as int] == s.wireguard@[i as int]@);
        out.push(s.wireguard[i].name.clone());
        i = i + 1;
    }
    assert(texts(out@) == tunnel_names(s@));
    out
}

fn list_links(s: &DesiredState) -> (r: Vec<String>)
    ensures
        texts(r@) == made_links(s@),
{
    let ghost f = tagged_name(s@);
    let mut out: Vec<String> = Vec::new();
    let mut i: usize = 0;
    assert(texts(out@) == Seq::<Seq<char>>::empty());
    while i < s.interfaces.len()
        invariant
            f == tagged_name(s@),
            i <= s.interfaces@.len(),
            texts(out@) == collect(i as nat, f),
        decreases s.interfaces@.len() - i,
    {
        assert(s@.interfaces[i as int] == s.interfaces@[i as int]@);
        if s.interfaces[i].vlan.is_some() {
            add_text(&mut out, s.interfaces[i].name.clone());
        }
        i = i + 1;
    }
    text::add_texts(&mut out, &list_tunnels(s));
    out
}

fn gives_qdisc(s: &DesiredState, dev: &str) -> (r: bool)
    ensures
        r == has_qdisc(s@, dev@),
{
    let mut i: usize = 0;
    while i < s.qdiscs.len()
        invariant
            i <= s.qdiscs@.len(),
            forall|j: int| 0 <= j < i ==> (#[trigger] s@.qdiscs[j]).dev != dev@,
        decreases s.qdiscs@.len() - i,
    {
        assert(s@.qdiscs[i as int] == s.qdiscs@[i as int]@);
        if same(s.qdiscs[i].dev.as_str(), dev) {
            return true;
        }
        i = i + 1;
    }
    false
}

fn list_qdiscs(old: &DesiredState, new: &DesiredState) -> (r: Vec<(String, bool)>)
    ensures
        device_views(r@) == qdisc_devices(old@, new@),
{
    let mut out: Vec<(String, bool)> = Vec::new();
    let mut i: usize = 0;
    while i < new.qdiscs.len()
        invariant
            i <= new.qdiscs@.len(),
            out@.len() == i,
            forall|j: int|
                0 <= j < i ==> ((#[trigger] out@[j]).0@, out@[j].1) == (
                    new@.qdiscs[j].dev,
                    !has_qdisc(old@, new@.qdiscs[j].dev),
                ),
        decreases new.qdiscs@.len() - i,
    {
        assert(new@.qdiscs[i as int] == new.qdiscs@[i as int]@);
        let dev = new.qdiscs[i].dev.as_str();
        let fresh = !gives_qdisc(old, dev);
        out.push((dev.to_owned(), fresh));
        i = i + 1;
    }
    assert(device_views(out@) == qdisc_devices(old@, new@));
    out
}

/// What is looked at before a state takes the place of another.
pub fn survey(current: &DesiredState, proposed: &DesiredState) -> (r: Survey)
    ensures
        r@ == survey_of(current@, proposed@),
{
    let mut old = current.clone();
    let mut new = proposed.clone();
    lan::merge_lan_prefix_addr(&mut old);
    lan::merge_lan_prefix_addr(&mut new);
    Survey {
        addresses: find_new_addresses(&old, &new),
        links: list_links(&new),
        tunnels: list_tunnels(&old),
        qdiscs: list_qdiscs(&old, &new),
    }
}

// ---------------------------------------------------------------------------
// What was there
// ---------------------------------------------------------------------------

/// What was found before an apply, item by item.
pub struct Findings {
    /// Whether the device is there and has the address not yet.
    pub fresh: Vec<bool>,
    /// Whether the link is not there.
    pub missing: Vec<bool>,
    /// The port of the tunnel, where it is there.
    pub ports: Vec<Option<u16>>,
    /// The root of the device, where the device is there.
    pub roots: Vec<Option<Option<RootQdisc>>>,
    /// What is in the configurations of the services.
    pub files: Vec<(String, Option<Vec<u8>>)>,
}

/// What an apply can be taken back with.
#[derive(Debug)]
pub struct RollbackFootprint {
    pub addresses: Vec<(String, String)>,
    pub links: Vec<String>,
    pub ports: Vec<(String, u16)>,
    pub qdiscs: Vec<(String, Option<RootQdisc>, bool)>,
    pub files: Vec<(String, Option<Vec<u8>>)>,
}

#[verifier::ext_equal]
pub struct FootprintView {
    pub addresses: Seq<(Seq<char>, Seq<char>)>,
    pub links: Seq<Seq<char>>,
    pub ports: Seq<(Seq<char>, u16)>,
    pub qdiscs: Seq<(Seq<char>, Option<RootQdiscView>, bool)>,
    pub files: Seq<(Seq<char>, Option<Seq<u8>>)>,
}

pub open spec fn port_views(v: Seq<(String, u16)>) -> Seq<(Seq<char>, u16)> {
    Seq::new(v.len(), |i: int| (v[i].0@, v[i].1))
}

pub open spec fn qdisc_triples(v: Seq<(String, Option<RootQdisc>, bool)>) -> Seq<
    (Seq<char>, Option<RootQdiscView>, bool),
> {
    Seq::new(v.len(), |i: int| (v[i].0@, root_view(v[i].1), v[i].2))
}

pub open spec fn file_views(v: Seq<(String, Option<Vec<u8>>)>) -> Seq<(Seq<char>, Option<Seq<u8>>)> {
    Seq::new(v.len(), |i: int| (v[i].0@, bytes_opt(v[i].1)))
}

impl View for RollbackFootprint {
    type V = FootprintView;

    open spec fn view(&self) -> FootprintView {
        FootprintView {
            addresses: pair_views(self.addresses@),
            links: texts(self.links@),
            ports: port_views(self.ports@),
            qdiscs: qdisc_triples(self.qdiscs@),
            files: file_views(self.files@),
        }
    }
}

pub open spec fn kept_address(s: SurveyView, f: Findings) -> spec_fn(int) -> Option<(Seq<char>, Seq<char>)> {
    |i: int|
        if i < f.fresh@.len() && f.fresh@[i] {
            Some(s.addresses[i])
        } else {
            None
        }
}

pub open spec fn kept_link(s: SurveyView, f: Findings) -> spec_fn(int) -> Option<Seq<char>> {
    |i: int|
        if i < f.missing@.len() && f.missing@[i] {
            Some(s.links[i])
        } else {
            None
        }
}

pub open spec fn kept_port(s: SurveyView, f: Findings) -> spec_fn(int) -> Option<(Seq<char>, u16)> {
    |i: int|
        if i < f.ports@.len() && f.ports@[i] is Some {
            Some((s.tunnels[i], f.ports@[i]->0))
        } else {
            None
        }
}

pub open spec fn kept_qdisc(s: SurveyView, f: Findings) -> spec_fn(int) -> Option<
    (Seq<char>, Option<RootQdiscView>, bool),
> {
    |i: int|
        if i < f.roots@.len() && f.roots@[i] is Some {
            Some((s.qdiscs[i].0, root_view(f.roots@[i]->0), s.qdiscs[i].1))
        } else {
            None
        }
}

/// What an apply can be taken back with: of what was looked at, what was not
/// there, and what is put back.
pub open spec fn footprint_of(s: SurveyView, f: Findings) -> FootprintView {
    FootprintView {
        addresses: collect(s.addresses.len(), kept_address(s, f)),
        links: collect(s.links.len(), kept_link(s, f)),
        ports: collect(s.tunnels.len(), kept_port(s, f)),
        qdiscs: collect(s.qdiscs.len(), kept_qdisc(s, f)),
        files: file_views(f.files@),
    }
}

fn keep_addresses(s: &Survey, f: &Findings) -> (r: Vec<(String, String)>)
    ensures
        pair_views(r@) == collect(s@.addresses.len(), kept_address(s@, *f)),
{
    let ghost g = kept_address(s@, *f);
    let mut out: Vec<(String, String)> = Vec::new();
    let mut i: usize = 0;
    assert(pair_views(out@) == Seq::<(Seq<char>, Seq<char>)>::empty());
    while i < s.addresses.len()
        invariant
            g == kept_address(s@, *f),
            i <= s.addresses@.len(),
            pair_views(out@) == collect(i as nat, g),
        decreases s.addresses@.len() - i,
    {
        if i < f.fresh.len() && f.fresh[i] {
            let ghost was = out@;
            out.push((s.addresses[i].0.clone(), s.addresses[i].1.clone()));
            assert(pair_views(out@) == pair_views(was).push(s@.addresses[i as int]));
        }
        i = i + 1;
    }
    out
}

fn keep_links(s: &Survey, f: &Findings) -> (r: Vec<String>)
    ensures
        texts(r@) == collect(s@.links.len(), kept_link(s@, *f)),
{
    let ghost g = kept_link(s@, *f);
    let mut out: Vec<String> = Vec::new();
    let mut i: usize = 0;
    assert(texts(out@) == Seq::<Seq<char>>::empty());
    while i < s.links.len()
        invariant
            g == kept_link(s@, *f),
            i <= s.links@.len(),
            texts(out@) == collect(i as nat, g),
        decreases s.links@.len() - i,
    {
        assert(s@.links[i as int] == s.links@[i as int]@);
        if i < f.missing.len() && f.missing[i] {
            add_text(&mut out, s.links[i].clone());
        }
        i = i + 1;
    }
    out
}

fn keep_ports(s: &Survey, f: &Findings) -> (r: Vec<(String, u16)>)
    ensures
        port_views(r@) == collect(s@.tunnels.len(), kept_port(s@, *f)),
{
    let ghost g = kept_port(s@, *f);
    let mut out: Vec<(String, u16)> = Vec::new();
    let mut i: usize = 0;
    assert(port_views(out@) == Seq::<(Seq<char>, u16)>::empty());
    while i < s.tunnels.len()
        invariant
            g == kept_port(s@, *f),
            i <= s.tunnels@.len(),
            port_views(out@) == collect(i as nat, g),
        decreases s.tunnels@.len() - i,
    {
        assert(s@.tunnels[i as int] == s.tunnels@[i as int]@);
        if i < f.ports.len() {
            if let Some(port) = f.ports[i] {
                let ghost was = out@;
                out.push((s.tunnels[i].clone(), port));
                assert(port_views(out@) == port_views(was).push((s@.tunnels[i as int], port)));
            }
        }
        i = i + 1;
    }
    out
}

fn copy_root(q: &Option<RootQdisc>) -> (r: Option<RootQdisc>)
    ensures
        root_view(r) == root_view(*q),
{
    match q {
        Some(x) => Some(RootQdisc { kind: x.kind.clone(), options: x.options.clone() }),
        None => None,
    }
}

fn keep_qdiscs(s: &Survey, f: &Findings) -> (r: Vec<(String, Option<RootQdisc>, bool)>)
    ensures
        qdisc_triples(r@) == collect(s@.qdiscs.len(), kept_qdisc(s@, *f)),
{
    let ghost g = kept_qdisc(s@, *f);
    let mut out: Vec<(String, Option<RootQdisc>, bool)> = Vec::new();
    let mut i: usize = 0;
    assert(qdisc_triples(out@) == Seq::<(Seq<char>, Option<RootQdiscView>, bool)>::empty());
    while i < s.qdiscs.len()
        invariant
            g == kept_qdisc(s@, *f),
            i <= s.qdiscs@.len(),
            qdisc_triples(out@) == collect(i as nat, g),
        decreases s.qdiscs@.len() - i,
    {
        assert(s@.qdiscs[i as int] == (s.qdiscs@[i as int].0@, s.qdiscs@[i as int].1));
        if i < f.roots.len() {
            match &f.roots[i] {
                Some(root) => {
                    let ghost was = out@;
                    out.push((s.qdiscs[i].0.clone(), copy_root(root), s.qdiscs[i].1));
                    assert(qdisc_triples(out@) == qdisc_triples(was).push(g(i as int)->0));
                },
                None => {},
            }
        }
        i = i + 1;
    }
    out
}

fn copy_files(v: &Vec<(String, Option<Vec<u8>>)>) -> (r: Vec<(String, Option<Vec<u8>>)>)
    ensures
        file_views(r@) == file_views(v@),
{
    let mut out: Vec<(String, Option<Vec<u8>>)> = Vec::new();
    let mut i: usize = 0;
    while i < v.len()
        invariant
            i <= v@.len(),
            out@.len() == i,
            forall|j: int|
                0 <= j < i ==> (#[trigger] out@[j]).0@ == v@[j].0@ && bytes_opt(out@[j].1) == bytes_opt(
                    v@[j].1,
                ),
        decreases v@.len() - i,
    {
        out.push((v[i].0.clone(), copy_bytes(&v[i].1)));
        i = i + 1;
    }
    assert(file_views(out@) == file_views(v@));
    out
}

impl RollbackFootprint {
    /// What an apply can be taken back with.
    pub fn capture(s: &Survey, f: &Findings) -> (r: RollbackFootprint)
        ensures
            r@ == footprint_of(s@, *f),
    {
        RollbackFootprint {
            addresses: keep_addresses(s, f),
            links: keep_links(s, f),
            ports: keep_ports(s, f),
            qdiscs: keep_qdiscs(s, f),
            files: copy_files(&f.files),
        }
    }
}

/// The configurations of the services that are looked at.
pub fn service_files() -> (r: Vec<String>)
    ensures
        texts(r@) == seq![KEA4_CONF@, KEA6_CONF@, UNBOUND_CONF@],
{
    let r = vec![KEA4_CONF.to_owned(), KEA6_CONF.to_owned(), UNBOUND_CONF.to_owned()];
    assert(texts(r@) == seq![KEA4_CONF@, KEA6_CONF@, UNBOUND_CONF@]);
    r
}

/// An address that both states configure, or that was there before, is never
/// taken away.
pub proof fn law_only_own_addresses_are_undone(current: DesiredView, proposed: DesiredView, f: Findings, k: int)
    requires
        0 <= k < footprint_of(survey_of(current, proposed), f).addresses.len(),
    ensures
        ({
            let a = footprint_of(survey_of(current, proposed), f).addresses[k];
            &&& !configured_addresses(with_lan_address(current)).contains(a)
            &&& configured_addresses(with_lan_address(proposed)).contains(a)
            &&& exists|i: int|
                0 <= i < f.fresh@.len() && #[trigger] f.fresh@[i] && survey_of(current, proposed).addresses[i] == a
        }),
{
    let s = survey_of(current, proposed);
    let g = kept_address(s, f);
    text::lemma_collected(s.addresses.len(), g, k);
    let i = choose|i: int|
        0 <= i < s.addresses.len() && #[trigger] g(i) == Some(collect(s.addresses.len(), g)[k]);
    assert(f.fresh@[i]);
    let old = configured_addresses(with_lan_address(current));
    let new = configured_addresses(with_lan_address(proposed));
    let h = new_address(old, new);
    text::lemma_collected(new.len(), h, i);
    let j = choose|j: int| 0 <= j < new.len() && #[trigger] h(j) == Some(collect(new.len(), h)[i]);
    assert(new[j] == s.addresses[i]);
}

// ---------------------------------------------------------------------------
// Taking it back
// ---------------------------------------------------------------------------

/// The kind of thing that is being taken back.
#[derive(Clone, Copy, Debug, PartialEq, Eq, Structural)]
pub enum Kind {
    Address,
    Link,
    Port,
    Qdisc,
    File,
    End,
}

/// What is being done about it.
#[derive(Clone, Copy, Debug, PartialEq, Eq, Structural)]
pub enum Part {
    Inspect,
    Act,
    Verify,
}

/// Where the work stands.
#[derive(Clone, Copy, Debug, PartialEq, Eq, Structural)]
pub struct Place {
    pub kind: Kind,
    pub index: usize,
    pub part: Part,
}

/// The work of taking an apply back.
pub struct Undo {
    pub footprint: RollbackFootprint,
    pub at: Place,
    pub failures: Vec<String>,
}

#[verifier::ext_equal]
pub struct UndoView {
    pub footprint: FootprintView,
    pub at: Place,
    pub failures: Seq<Seq<char>>,
}

impl View for Undo {
    type V = UndoView;

    open spec fn view(&self) -> UndoView {
        UndoView { footprint: self.footprint@, at: self.at, failures: texts(self.failures@) }
    }
}

/// What the world answers.
pub enum Answer {
    /// Whether it is there, or why that cannot be told.
    Present(Result<bool, String>),
    /// Whether it was done, or why not.
    Outcome(Result<(), String>),
    /// The port, or why it cannot be told.
    Port(Result<u16, String>),
    /// The root, or why it cannot be told.
    Root(Result<Option<RootQdisc>, String>),
}

pub enum AnswerView {
    Present(Result<bool, Seq<char>>),
    Outcome(Option<Seq<char>>),
    Port(Result<u16, Seq<char>>),
    Root(Result<Option<RootQdiscView>, Seq<char>>),
}

impl View for Answer {
    type V = AnswerView;

    open spec fn view(&self) -> AnswerView {
        match self {
            Answer::Present(Ok(b)) => AnswerView::Present(Ok(*b)),
            Answer::Present(Err(e)) => AnswerView::Present(Err(e@)),
            Answer::Outcome(r) => AnswerView::Outcome(text::failure(*r)),
            Answer::Port(Ok(p)) => AnswerView::Port(Ok(*p)),
            Answer::Port(Err(e)) => AnswerView::Port(Err(e@)),
            Answer::Root(Ok(q)) => AnswerView::Root(Ok(root_view(*q))),
            Answer::Root(Err(e)) => AnswerView::Root(Err(e@)),
        }
    }
}

/// What is to be done next.
#[derive(Debug)]
pub enum Task {
    /// Look whether the device has the address.
    InspectAddress(String, String),
    /// Look whether the link is there.
    InspectLink(String),
    /// Look at the port of the tunnel.
    InspectPort(String),
    /// Look at the root of the device.
    InspectQdisc(String),
    Ip(Vec<String>),
    Wg(Vec<String>),
    Tc(Vec<String>),
    /// Put the file back, or take it away where it was not there.
    Restore(String, Option<Vec<u8>>),
    Finished,
}

pub enum TaskView {
    InspectAddress(Seq<char>, Seq<char>),
    InspectLink(Seq<char>),
    InspectPort(Seq<char>),
    InspectQdisc(Seq<char>),
    Ip(Seq<Seq<char>>),
    Wg(Seq<Seq<char>>),
    Tc(Seq<Seq<char>>),
    Restore(Seq<char>, Option<Seq<u8>>),
    Finished,
}

impl View for Task {
    type V = TaskView;

    open spec fn view(&self) -> TaskView {
        match self {
            Task::InspectAddress(d, c) => TaskView::InspectAddress(d@, c@),
            Task::InspectLink(n) => TaskView::InspectLink(n@),
            Task::InspectPort(n) => TaskView::InspectPort(n@),
            Task::InspectQdisc(d) => TaskView::InspectQdisc(d@),
            Task::Ip(a) => TaskView::Ip(texts(a@)),
            Task::Wg(a) => TaskView::Wg(texts(a@)),
            Task::Tc(a) => TaskView::Tc(texts(a@)),
            Task::Restore(p, c) => TaskView::Restore(p@, bytes_opt(*c)),
            Task::Finished => TaskView::Finished,
        }
    }
}

/// How many things of a kind there are.
pub open spec fn count(f: FootprintView, kind: Kind) -> nat {
    match kind {
        Kind::Address => f.addresses.len(),
        Kind::Link => f.links.len(),
        Kind::Port => f.ports.len(),
        Kind::Qdisc => f.qdiscs.len(),
        Kind::File => f.files.len(),
        Kind::End => 0,
    }
}

/// The kind that follows.
pub open spec fn following(kind: Kind) -> Kind {
    match kind {
        Kind::Address => Kind::Link,
        Kind::Link => Kind::Port,
        Kind::Port => Kind::Qdisc,
        Kind::Qdisc => Kind::File,
        _ => Kind::End,
    }
}

/// How many kinds are left.
pub open spec fn kinds_left(kind: Kind) -> nat {
    match kind {
        Kind::Address => 5,
        Kind::Link => 4,
        Kind::Port => 3,
        Kind::Qdisc => 2,
        Kind::File => 1,
        Kind::End => 0,
    }
}

/// The start of the work on the thing of that kind and number, or on the first
/// thing behind it.
pub open spec fn place_from(f: FootprintView, kind: Kind, index: nat) -> Place
    decreases kinds_left(kind),
{
    if kind == Kind::End {
        Place { kind: Kind::End, index: 0, part: Part::Inspect }
    } else if index < count(f, kind) {
        Place {
            kind,
            index: index as usize,
            part: if kind == Kind::File {
                Part::Act
            } else {
                Part::Inspect
            },
        }
    } else {
        place_from(f, following(kind), 0)
    }
}

/// Where the work goes on once this thing is done.
pub open spec fn place_after(u: UndoView) -> Place {
    place_from(u.footprint, u.at.kind, (u.at.index + 1) as nat)
}

/// The work goes on with the next thing.
pub open spec fn passed(u: UndoView) -> UndoView {
    UndoView { at: place_after(u), ..u }
}

/// The work goes on with another part of this thing.
pub open spec fn turned(u: UndoView, part: Part) -> UndoView {
    UndoView { at: Place { part, ..u.at }, ..u }
}

/// One failure more.
pub open spec fn noted(u: UndoView, failure: Seq<char>) -> UndoView {
    UndoView { failures: u.failures.push(failure), ..u }
}

/// What follows from an answer. One that does not fit changes nothing.
pub open spec fn undo_next(u: UndoView, a: AnswerView) -> UndoView {
    let i = u.at.index as int;
    match (u.at.kind, u.at.part, a) {
        (Kind::Address, Part::Inspect, AnswerView::Present(r)) => match r {
            Ok(true) => turned(u, Part::Act),
            Ok(false) => passed(u),
            Err(e) => passed(
                noted(
                    u,
                    "inspect tentative address on "@ + u.footprint.addresses[i].0 + ": "@ + e,
                ),
            ),
        },
        (Kind::Address, Part::Act, AnswerView::Outcome(r)) => match r {
            None => passed(u),
            Some(e) => passed(
                noted(u, "remove tentative address on "@ + u.footprint.addresses[i].0 + ": "@ + e),
            ),
        },
        (Kind::Link, Part::Inspect, AnswerView::Present(r)) => match r {
            Ok(true) => turned(u, Part::Act),
            Ok(false) => passed(u),
            Err(e) => passed(noted(u, "inspect tentative link "@ + u.footprint.links[i] + ": "@ + e)),
        },
        (Kind::Link, Part::Act, AnswerView::Outcome(r)) => match r {
            None => passed(u),
            Some(e) => passed(noted(u, "remove tentative link "@ + u.footprint.links[i] + ": "@ + e)),
        },
        (Kind::Port, Part::Inspect, AnswerView::Port(r)) => match r {
            Ok(p) => if p == u.footprint.ports[i].1 {
                passed(u)
            } else {
                turned(u, Part::Act)
            },
            Err(e) => passed(
                noted(u, "inspect WireGuard listen port on "@ + u.footprint.ports[i].0 + ": "@ + e),
            ),
        },
        (Kind::Port, Part::Act, AnswerView::Outcome(r)) => match r {
            None => turned(u, Part::Verify),
            Some(e) => turned(
                noted(u, "restore WireGuard listen port on "@ + u.footprint.ports[i].0 + ": "@ + e),
                Part::Verify,
            ),
        },
        (Kind::Port, Part::Verify, AnswerView::Port(r)) => match r {
            Ok(p) => if p == u.footprint.ports[i].1 {
                passed(u)
            } else {
                passed(
                    noted(
                        u,
                        "WireGuard listen port on "@ + u.footprint.ports[i].0 + " was not restored"@,
                    ),
                )
            },
            Err(e) => passed(
                noted(u, "verify WireGuard listen port on "@ + u.footprint.ports[i].0 + ": "@ + e),
            ),
        },
        (Kind::Qdisc, Part::Inspect, AnswerView::Root(r)) => match r {
            Ok(q) => if roots_alike(q, u.footprint.qdiscs[i].1) {
                passed(u)
            } else if u.footprint.qdiscs[i].2 {
                turned(u, Part::Act)
            } else {
                turned(u, Part::Verify)
            },
            Err(e) => passed(
                noted(u, "inspect tentative qdisc on "@ + u.footprint.qdiscs[i].0 + ": "@ + e),
            ),
        },
        (Kind::Qdisc, Part::Act, AnswerView::Outcome(r)) => match r {
            None => turned(u, Part::Verify),
            Some(e) => turned(
                noted(u, "restore qdisc on "@ + u.footprint.qdiscs[i].0 + ": "@ + e),
                Part::Verify,
            ),
        },
        (Kind::Qdisc, Part::Verify, AnswerView::Root(r)) => match r {
            Ok(q) => if roots_alike(q, u.footprint.qdiscs[i].1) {
                passed(u)
            } else {
                passed(
                    noted(
                        u,
                        "qdisc options on "@ + u.footprint.qdiscs[i].0 + " were not restored"@,
                    ),
                )
            },
            Err(e) => passed(
                noted(u, "verify restored qdisc on "@ + u.footprint.qdiscs[i].0 + ": "@ + e),
            ),
        },
        (Kind::File, Part::Act, AnswerView::Outcome(r)) => match r {
            None => passed(u),
            Some(e) => passed(noted(u, e)),
        },
        _ => u,
    }
}

/// How the root of a device is put back: by the kind that it had or, where
/// that is one that comes by itself, by taking the new one away.
pub open spec fn root_args(dev: Seq<char>, prior: Option<RootQdiscView>) -> Seq<Seq<char>> {
    match prior {
        Some(q) => if q.kind != "noqueue"@ && q.kind != "mq"@ {
            seq!["qdisc"@, "replace"@, "dev"@, dev, "root"@, q.kind]
        } else {
            seq!["qdisc"@, "delete"@, "dev"@, dev, "root"@]
        },
        None => seq!["qdisc"@, "delete"@, "dev"@, dev, "root"@],
    }
}

/// What is to be done where the work stands.
pub open spec fn undo_task(u: UndoView) -> TaskView {
    let f = u.footprint;
    let i = u.at.index as int;
    match (u.at.kind, u.at.part) {
        (Kind::Address, Part::Act) => TaskView::Ip(
            seq!["addr"@, "del"@, f.addresses[i].1, "dev"@, f.addresses[i].0],
        ),
        (Kind::Address, _) => TaskView::InspectAddress(f.addresses[i].0, f.addresses[i].1),
        (Kind::Link, Part::Act) => TaskView::Ip(seq!["link"@, "delete"@, "dev"@, f.links[i]]),
        (Kind::Link, _) => TaskView::InspectLink(f.links[i]),
        (Kind::Port, Part::Act) => TaskView::Wg(
            seq!["set"@, f.ports[i].0, "listen-port"@, decimal(f.ports[i].1 as nat)],
        ),
        (Kind::Port, _) => TaskView::InspectPort(f.ports[i].0),
        (Kind::Qdisc, Part::Act) => TaskView::Tc(root_args(f.qdiscs[i].0, f.qdiscs[i].1)),
        (Kind::Qdisc, _) => TaskView::InspectQdisc(f.qdiscs[i].0),
        (Kind::File, _) => TaskView::Restore(f.files[i].0, f.files[i].1),
        (Kind::End, _) => TaskView::Finished,
    }
}

/// Whether that is done about a thing of that kind: what is taken away is not
/// looked at again, and a file is put back without a look.
pub open spec fn part_fits(kind: Kind, part: Part) -> bool {
    match kind {
        Kind::Address | Kind::Link => part != Part::Verify,
        Kind::File => part == Part::Act,
        _ => true,
    }
}

/// Whether the work stands at something.
pub open spec fn undo_wf(u: UndoView) -> bool {
    u.at.kind == Kind::End || (u.at.index < count(u.footprint, u.at.kind) && part_fits(u.at.kind, u.at.part))
}

fn count_of(f: &RollbackFootprint, kind: Kind) -> (r: usize)
    ensures
        r == count(f@, kind),
{
    match kind {
        Kind::Address => f.addresses.len(),
        Kind::Link => f.links.len(),
        Kind::Port => f.ports.len(),
        Kind::Qdisc => f.qdiscs.len(),
        Kind::File => f.files.len(),
        Kind::End => 0,
    }
}

fn kind_after(kind: Kind) -> (r: Kind)
    ensures
        r == following(kind),
{
    match kind {
        Kind::Address => Kind::Link,
        Kind::Link => Kind::Port,
        Kind::Port => Kind::Qdisc,
        Kind::Qdisc => Kind::File,
        _ => Kind::End,
    }
}

fn find_place(f: &RollbackFootprint, kind: Kind, index: usize) -> (r: Place)
    ensures
        r == place_from(f@, kind, index as nat),
        r.kind == Kind::End || (r.index < count(f@, r.kind) && part_fits(r.kind, r.part)),
    decreases kinds_left(kind),
{
    match kind {
        Kind::End => Place { kind: Kind::End, index: 0, part: Part::Inspect },
        Kind::File => {
            if index < f.files.len() {
                Place { kind: Kind::File, index, part: Part::Act }
            } else {
                find_place(f, Kind::End, 0)
            }
        },
        _ => {
            if index < count_of(f, kind) {
                Place { kind, index, part: Part::Inspect }
            } else {
                find_place(f, kind_after(kind), 0)
            }
        },
    }
}

impl Undo {
    /// The work from the start.
    pub fn begin(footprint: RollbackFootprint) -> (r: Undo)
        ensures
            r@ == (UndoView {
                footprint: footprint@,
                at: place_from(footprint@, Kind::Address, 0),
                failures: Seq::empty(),
            }),
            undo_wf(r@),
    {
        let at = find_place(&footprint, Kind::Address, 0);
        let failures: Vec<String> = Vec::new();
        assert(texts(failures@) == Seq::<Seq<char>>::empty());
        Undo { footprint, at, failures }
    }

    fn pass(self) -> (r: Undo)
        requires
            undo_wf(self@),
            self.at.kind != Kind::End,
        ensures
            r@ == passed(self@),
            undo_wf(r@),
    {
        let n = count_of(&self.footprint, self.at.kind);
        assert(self.at.index < n);
        let at = find_place(&self.footprint, self.at.kind, self.at.index + 1);
        Undo { at, ..self }
    }

    fn turn(self, part: Part) -> (r: Undo)
        requires
            undo_wf(self@),
            part_fits(self.at.kind, part),
        ensures
            r@ == turned(self@, part),
            undo_wf(r@),
    {
        let at = Place { kind: self.at.kind, index: self.at.index, part };
        Undo { at, ..self }
    }

    fn note(self, failure: String) -> (r: Undo)
        requires
            undo_wf(self@),
        ensures
            r@ == noted(self@, failure@),
            undo_wf(r@),
    {
        let mut failures = self.failures;
        add_text(&mut failures, failure);
        Undo { failures, ..self }
    }

    fn about(&self, before: &str, subject: &str, after: &str) -> (r: String)
        ensures
            r@ == before@ + subject@ + after@,
    {
        before.to_owned().concat(subject).concat(after)
    }

    fn next_address(self, a: Answer) -> (r: Undo)
        requires
            undo_wf(self@),
            self.at.kind == Kind::Address,
        ensures
            r@ == undo_next(self@, a@),
            undo_wf(r@),
    {
        let dev = self.footprint.addresses[self.at.index].0.clone();
        assert(self@.footprint.addresses[self.at.index as int].0 == dev@);
        match (self.at.part, a) {
            (Part::Inspect, Answer::Present(Ok(there))) => if there {
                self.turn(Part::Act)
            } else {
                self.pass()
            },
            (Part::Inspect, Answer::Present(Err(e))) => {
                let text = self.about("inspect tentative address on ", dev.as_str(), ": ").concat(
                    e.as_str(),
                );
                self.note(text).pass()
            },
            (Part::Act, Answer::Outcome(Ok(_))) => self.pass(),
            (Part::Act, Answer::Outcome(Err(e))) => {
                let text = self.about("remove tentative address on ", dev.as_str(), ": ").concat(
                    e.as_str(),
                );
                self.note(text).pass()
            },
            _ => self,
        }
    }

    fn next_link(self, a: Answer) -> (r: Undo)
        requires
            undo_wf(self@),
            self.at.kind == Kind::Link,
        ensures
            r@ == undo_next(self@, a@),
            undo_wf(r@),
    {
        let name = self.footprint.links[self.at.index].clone();
        assert(self@.footprint.links[self.at.index as int] == name@);
        match (self.at.part, a) {
            (Part::Inspect, Answer::Present(Ok(there))) => if there {
                self.turn(Part::Act)
            } else {
                self.pass()
            },
            (Part::Inspect, Answer::Present(Err(e))) => {
                let text = self.about("inspect tentative link ", name.as_str(), ": ").concat(e.as_str());
                self.note(text).pass()
            },
            (Part::Act, Answer::Outcome(Ok(_))) => self.pass(),
            (Part::Act, Answer::Outcome(Err(e))) => {
                let text = self.about("remove tentative link ", name.as_str(), ": ").concat(e.as_str());
                self.note(text).pass()
            },
            _ => self,
        }
    }

    fn next_port(self, a: Answer) -> (r: Undo)
        requires
            undo_wf(self@),
            self.at.kind == Kind::Port,
        ensures
            r@ == undo_next(self@, a@),
            undo_wf(r@),
    {
        let name = self.footprint.ports[self.at.index].0.clone();
        let prior = self.footprint.ports[self.at.index].1;
        assert(self@.footprint.ports[self.at.index as int] == (name@, prior));
        match (self.at.part, a) {
            (Part::Inspect, Answer::Port(Ok(p))) => if p == prior {
                self.pass()
            } else {
                self.turn(Part::Act)
            },
            (Part::Inspect, Answer::Port(Err(e))) => {
                let text = self.about("inspect WireGuard listen port on ", name.as_str(), ": ").concat(
                    e.as_str(),
                );
                self.note(text).pass()
            },
            (Part::Act, Answer::Outcome(Ok(_))) => self.turn(Part::Verify),
            (Part::Act, Answer::Outcome(Err(e))) => {
                let text = self.about("restore WireGuard listen port on ", name.as_str(), ": ").concat(
                    e.as_str(),
                );
                self.note(text).turn(Part::Verify)
            },
            (Part::Verify, Answer::Port(Ok(p))) => if p == prior {
                self.pass()
            } else {
                let text = self.about("WireGuard listen port on ", name.as_str(), " was not restored");
                self.note(text).pass()
            },
            (Part::Verify, Answer::Port(Err(e))) => {
                let text = self.about("verify WireGuard listen port on ", name.as_str(), ": ").concat(
                    e.as_str(),
                );
                self.note(text).pass()
            },
            _ => self,
        }
    }

    fn next_qdisc(self, a: Answer) -> (r: Undo)
        requires
            undo_wf(self@),
            self.at.kind == Kind::Qdisc,
        ensures
            r@ == undo_next(self@, a@),
            undo_wf(r@),
    {
        let dev = self.footprint.qdiscs[self.at.index].0.clone();
        let own = self.footprint.qdiscs[self.at.index].2;
        let ghost triple = self@.footprint.qdiscs[self.at.index as int];
        assert(triple == (
            dev@,
            root_view(self.footprint.qdiscs@[self.at.index as int].1),
            own,
        ));
        match (self.at.part, a) {
            (Part::Inspect, Answer::Root(Ok(q))) => {
                if same_root(&q, &self.footprint.qdiscs[self.at.index].1) {
                    self.pass()
                } else if own {
                    self.turn(Part::Act)
                } else {
                    self.turn(Part::Verify)
                }
            },
            (Part::Inspect, Answer::Root(Err(e))) => {
                let text = self.about("inspect tentative qdisc on ", dev.as_str(), ": ").concat(e.as_str());
                self.note(text).pass()
            },
            (Part::Act, Answer::Outcome(Ok(_))) => self.turn(Part::Verify),
            (Part::Act, Answer::Outcome(Err(e))) => {
                let text = self.about("restore qdisc on ", dev.as_str(), ": ").concat(e.as_str());
                self.note(text).turn(Part::Verify)
            },
            (Part::Verify, Answer::Root(Ok(q))) => {
                if same_root(&q, &self.footprint.qdiscs[self.at.index].1) {
                    self.pass()
                } else {
                    let text = self.about("qdisc options on ", dev.as_str(), " were not restored");
                    self.note(text).pass()
                }
            },
            (Part::Verify, Answer::Root(Err(e))) => {
                let text = self.about("verify restored qdisc on ", dev.as_str(), ": ").concat(e.as_str());
                self.note(text).pass()
            },
            _ => self,
        }
    }

    /// What follows from an answer.
    pub fn next(self, a: Answer) -> (r: Undo)
        requires
            undo_wf(self@),
        ensures
            r@ == undo_next(self@, a@),
            undo_wf(r@),
    {
        match self.at.kind {
            Kind::Address => self.next_address(a),
            Kind::Link => self.next_link(a),
            Kind::Port => self.next_port(a),
            Kind::Qdisc => self.next_qdisc(a),
            Kind::File => match (self.at.part, a) {
                (Part::Act, Answer::Outcome(Ok(_))) => self.pass(),
                (Part::Act, Answer::Outcome(Err(e))) => self.note(e).pass(),
                _ => self,
            },
            Kind::End => self,
        }
    }

    /// What is to be done where the work stands.
    pub fn task(&self) -> (r: Task)
        requires
            undo_wf(self@),
        ensures
            r@ == undo_task(self@),
    {
        let f = &self.footprint;
        let i: usize = self.at.index;
        let ghost v = self@.footprint;
        match self.at.kind {
            Kind::Address => {
                let (dev, cidr) = (f.addresses[i].0.as_str(), f.addresses[i].1.as_str());
                assert(v.addresses[i as int] == (dev@, cidr@));
                match self.at.part {
                    Part::Act => {
                        let args = vec![
                            "addr".to_owned(),
                            "del".to_owned(),
                            cidr.to_owned(),
                            "dev".to_owned(),
                            dev.to_owned(),
                        ];
                        assert(texts(args@) == seq!["addr"@, "del"@, cidr@, "dev"@, dev@]);
                        Task::Ip(args)
                    },
                    _ => Task::InspectAddress(dev.to_owned(), cidr.to_owned()),
                }
            },
            Kind::Link => {
                let name = f.links[i].as_str();
                assert(v.links[i as int] == name@);
                match self.at.part {
                    Part::Act => {
                        let args = vec![
                            "link".to_owned(),
                            "delete".to_owned(),
                            "dev".to_owned(),
                            name.to_owned(),
                        ];
                        assert(texts(args@) == seq!["link"@, "delete"@, "dev"@, name@]);
                        Task::Ip(args)
                    },
                    _ => Task::InspectLink(name.to_owned()),
                }
            },
            Kind::Port => {
                let name = f.ports[i].0.as_str();
                assert(v.ports[i as int] == (name@, f.ports@[i as int].1));
                match self.at.part {
                    Part::Act => {
                        let args = vec![
                            "set".to_owned(),
                            name.to_owned(),
                            "listen-port".to_owned(),
                            print(f.ports[i].1 as u64),
                        ];
                        assert(texts(args@) == seq![
                            "set"@,
                            name@,
                            "listen-port"@,
                            decimal(f.ports@[i as int].1 as nat),
                        ]);
                        Task::Wg(args)
                    },
                    _ => Task::InspectPort(name.to_owned()),
                }
            },
            Kind::Qdisc => {
                let dev = f.qdiscs[i].0.as_str();
                assert(v.qdiscs[i as int] == (
                    dev@,
                    root_view(f.qdiscs@[i as int].1),
                    f.qdiscs@[i as int].2,
                ));
                match self.at.part {
                    Part::Act => Task::Tc(root_words(dev, &f.qdiscs[i].1)),
                    _ => Task::InspectQdisc(dev.to_owned()),
                }
            },
            Kind::File => {
                assert(v.files[i as int] == (f.files@[i as int].0@, bytes_opt(f.files@[i as int].1)));
                Task::Restore(f.files[i].0.clone(), copy_bytes(&f.files[i].1))
            },
            Kind::End => Task::Finished,
        }
    }
}

fn root_words(dev: &str, prior: &Option<RootQdisc>) -> (r: Vec<String>)
    ensures
        texts(r@) == root_args(dev@, root_view(*prior)),
{
    if let Some(q) = prior {
        if !same(q.kind.as_str(), "noqueue") && !same(q.kind.as_str(), "mq") {
            let args = vec![
                "qdisc".to_owned(),
                "replace".to_owned(),
                "dev".to_owned(),
                dev.to_owned(),
                "root".to_owned(),
                q.kind.clone(),
            ];
            assert(texts(args@) == root_args(dev@, root_view(*prior)));
            return args;
        }
    }
    let args = vec![
        "qdisc".to_owned(),
        "delete".to_owned(),
        "dev".to_owned(),
        dev.to_owned(),
        "root".to_owned(),
    ];
    assert(texts(args@) == root_args(dev@, root_view(*prior)));
    args
}

/// Whether an answer is one to the task at hand.
pub open spec fn answers(u: UndoView, a: AnswerView) -> bool {
    match undo_task(u) {
        TaskView::InspectAddress(_, _) => a is Present,
        TaskView::InspectLink(_) => a is Present,
        TaskView::InspectPort(_) => a is Port,
        TaskView::InspectQdisc(_) => a is Root,
        TaskView::Finished => false,
        _ => a is Outcome,
    }
}

/// Failures are never forgotten.
pub proof fn law_undo_keeps_failures(u: UndoView, a: AnswerView)
    ensures
        undo_next(u, a).failures.len() >= u.failures.len(),
        undo_next(u, a).failures.take(u.failures.len() as int) == u.failures,
        undo_next(u, a).footprint == u.footprint,
{
}

/// A port or a queueing discipline is passed without a failure only where it
/// was seen to be what it was before the apply.
pub proof fn law_undo_checks_what_it_restores(u: UndoView, a: AnswerView)
    requires
        undo_wf(u),
        u.at.kind == Kind::Port || u.at.kind == Kind::Qdisc,
        undo_next(u, a).at.kind != u.at.kind || undo_next(u, a).at.index != u.at.index,
        undo_next(u, a).failures == u.failures,
    ensures
        u.at.kind == Kind::Port ==> (a matches AnswerView::Port(Ok(p)) && p
            == u.footprint.ports[u.at.index as int].1),
        u.at.kind == Kind::Qdisc ==> (a matches AnswerView::Root(Ok(q)) && roots_alike(
            q,
            u.footprint.qdiscs[u.at.index as int].1,
        )),
{
    let v = undo_next(u, a);
    assert(v.failures.len() == u.failures.len());
    match a {
        AnswerView::Port(Ok(p)) => {
            if u.at.kind == Kind::Port && p != u.footprint.ports[u.at.index as int].1 {
                assert(u.at.part != Part::Inspect || v.at.part == Part::Act);
            }
        },
        AnswerView::Root(Ok(q)) => {
            if u.at.kind == Kind::Qdisc && !roots_alike(q, u.footprint.qdiscs[u.at.index as int].1) {
                assert(u.at.part != Part::Inspect || v.at.index == u.at.index);
            }
        },
        _ => {},
    }
}

/// The number of parts of the present thing that may still follow.
pub open spec fn parts_left(part: Part) -> nat {
    match part {
        Part::Inspect => 2,
        Part::Act => 1,
        Part::Verify => 0,
    }
}

/// The number of things from that one on.
pub open spec fn things_from(f: FootprintView, kind: Kind, index: nat) -> nat
    decreases kinds_left(kind),
{
    if kind == Kind::End {
        0
    } else if index < count(f, kind) {
        (count(f, kind) - index) as nat + things_from(f, following(kind), 0)
    } else {
        things_from(f, following(kind), 0)
    }
}

/// How many answers may still be asked for, at most.
pub open spec fn answers_left(u: UndoView) -> nat {
    if u.at.kind == Kind::End {
        0
    } else {
        3 * things_from(u.footprint, u.at.kind, (u.at.index + 1) as nat) + parts_left(u.at.part) + 1
    }
}

proof fn lemma_answers_left(u: UndoView, kind: Kind, index: nat)
    requires
        u.at == place_from(u.footprint, kind, index),
        forall|k: Kind| #[trigger] count(u.footprint, k) <= usize::MAX,
        index <= usize::MAX,
    ensures
        answers_left(u) <= 3 * things_from(u.footprint, kind, index),
    decreases kinds_left(kind),
{
    reveal_with_fuel(place_from, 2);
    reveal_with_fuel(things_from, 2);
    if kind != Kind::End && index >= count(u.footprint, kind) {
        lemma_answers_left(u, following(kind), 0);
    }
}

/// The work ends: it begins with at most three answers to be asked for of each
/// thing, and every answer to the task at hand lowers their number.
pub proof fn law_undo_ends(u: UndoView, a: AnswerView)
    requires
        undo_wf(u),
        forall|kind: Kind| #[trigger] count(u.footprint, kind) <= usize::MAX,
    ensures
        u.at == place_from(u.footprint, Kind::Address, 0) ==> answers_left(u) <= 3 * things_from(
            u.footprint,
            Kind::Address,
            0,
        ),
        answers(u, a) ==> answers_left(undo_next(u, a)) < answers_left(u),
{
    if u.at == place_from(u.footprint, Kind::Address, 0) {
        lemma_answers_left(u, Kind::Address, 0);
    }
    if answers(u, a) {
        let v = undo_next(u, a);
        if v.at == place_after(u) {
            lemma_answers_left(v, u.at.kind, (u.at.index + 1) as nat);
        }
    }
}

// ---------------------------------------------------------------------------
// Nothing is passed over
// ---------------------------------------------------------------------------

/// Everything that an apply may change is looked at before: every address that
/// only the new state has, every tagged interface and tunnel that it makes, every
/// tunnel of the old one, and every device that it gives a queueing discipline.
pub proof fn law_everything_is_looked_at(
    current: DesiredView,
    proposed: DesiredView,
    address: (Seq<char>, Seq<char>),
    i: int,
)
    ensures
        ({
            let s = survey_of(current, proposed);
            let old = with_lan_address(current);
            let new = with_lan_address(proposed);
            &&& configured_addresses(new).contains(address) && !configured_addresses(old).contains(address)
                ==> s.addresses.contains(address)
            &&& 0 <= i < new.interfaces.len() && new.interfaces[i].vlan is Some ==> s.links.contains(
                new.interfaces[i].name,
            )
            &&& 0 <= i < new.wireguard.len() ==> s.links.contains(new.wireguard[i].name)
            &&& 0 <= i < old.wireguard.len() ==> s.tunnels.contains(old.wireguard[i].name)
            &&& 0 <= i < new.qdiscs.len() ==> s.qdiscs.contains(
                (
                    new.qdiscs[i].dev,
                    forall|j: int| 0 <= j < old.qdiscs.len() ==> (#[trigger] old.qdiscs[j]).dev != new.qdiscs[i].dev,
                ),
            )
        }),
{
    let s = survey_of(current, proposed);
    let old = with_lan_address(current);
    let new = with_lan_address(proposed);
    let a = configured_addresses(new);
    if a.contains(address) && !configured_addresses(old).contains(address) {
        let k = choose|k: int| 0 <= k < a.len() && a[k] == address;
        lemma_collects(a.len(), new_address(configured_addresses(old), a), k);
    }
    let tagged = collect(new.interfaces.len(), tagged_name(new));
    let tunnels = tunnel_names(new);
    if 0 <= i < new.interfaces.len() && new.interfaces[i].vlan is Some {
        lemma_collects(new.interfaces.len(), tagged_name(new), i);
        let e = choose|e: int| 0 <= e < tagged.len() && tagged[e] == new.interfaces[i].name;
        assert(s.links[e] == new.interfaces[i].name);
    }
    if 0 <= i < new.wireguard.len() {
        assert(s.links[tagged.len() + i] == tunnels[i]);
    }
    if 0 <= i < old.wireguard.len() {
        assert(s.tunnels[i] == old.wireguard[i].name);
    }
    if 0 <= i < new.qdiscs.len() {
        assert(s.qdiscs[i] == (new.qdiscs[i].dev, !has_qdisc(old, new.qdiscs[i].dev)));
    }
}

/// Everything that was found is kept: what was not there yet, and how the rest
/// was.
pub proof fn law_everything_found_is_kept(s: SurveyView, f: Findings, i: int)
    requires
        0 <= i,
    ensures
        ({
            let p = footprint_of(s, f);
            &&& i < s.addresses.len() && i < f.fresh@.len() && f.fresh@[i] ==> p.addresses.contains(s.addresses[i])
            &&& i < s.links.len() && i < f.missing@.len() && f.missing@[i] ==> p.links.contains(s.links[i])
            &&& i < s.tunnels.len() && i < f.ports@.len() && f.ports@[i] is Some ==> p.ports.contains(
                (s.tunnels[i], f.ports@[i]->0),
            )
            &&& i < s.qdiscs.len() && i < f.roots@.len() && f.roots@[i] is Some ==> p.qdiscs.contains(
                (s.qdiscs[i].0, root_view(f.roots@[i]->0), s.qdiscs[i].1),
            )
            &&& i < f.files@.len() ==> p.files.contains((f.files@[i].0@, bytes_opt(f.files@[i].1)))
        }),
{
    let p = footprint_of(s, f);
    if i < s.addresses.len() && i < f.fresh@.len() && f.fresh@[i] {
        lemma_collects(s.addresses.len(), kept_address(s, f), i);
    }
    if i < s.links.len() && i < f.missing@.len() && f.missing@[i] {
        lemma_collects(s.links.len(), kept_link(s, f), i);
    }
    if i < s.tunnels.len() && i < f.ports@.len() && f.ports@[i] is Some {
        lemma_collects(s.tunnels.len(), kept_port(s, f), i);
    }
    if i < s.qdiscs.len() && i < f.roots@.len() && f.roots@[i] is Some {
        lemma_collects(s.qdiscs.len(), kept_qdisc(s, f), i);
    }
    if i < f.files@.len() {
        assert(p.files[i] == (f.files@[i].0@, bytes_opt(f.files@[i].1)));
    }
}

/// The first thing of a footprint, from links on, ports on, and so on.
pub open spec fn first_of(f: FootprintView, links: bool, ports: bool, qdiscs: bool) -> Place {
    if links && f.links.len() > 0 {
        Place { kind: Kind::Link, index: 0, part: Part::Inspect }
    } else if ports && f.ports.len() > 0 {
        Place { kind: Kind::Port, index: 0, part: Part::Inspect }
    } else if qdiscs && f.qdiscs.len() > 0 {
        Place { kind: Kind::Qdisc, index: 0, part: Part::Inspect }
    } else if f.files.len() > 0 {
        Place { kind: Kind::File, index: 0, part: Part::Act }
    } else {
        Place { kind: Kind::End, index: 0, part: Part::Inspect }
    }
}

/// Every thing has its turn: the work begins with the first address, goes from
/// each thing to the next of its kind, and from the last of a kind to the first
/// thing of the kinds behind it, which are links, ports, queueing disciplines and
/// files.
pub proof fn law_everything_has_its_turn(u: UndoView)
    requires
        undo_wf(u),
        u.at.index < usize::MAX,
    ensures
        u.footprint.addresses.len() > 0 ==> place_from(u.footprint, Kind::Address, 0) == (Place {
            kind: Kind::Address,
            index: 0,
            part: Part::Inspect,
        }),
        u.footprint.addresses.len() == 0 ==> place_from(u.footprint, Kind::Address, 0) == first_of(
            u.footprint,
            true,
            true,
            true,
        ),
        u.at.kind == Kind::Address ==> place_after(u) == (if u.at.index + 1 < u.footprint.addresses.len() {
            Place { kind: Kind::Address, index: (u.at.index + 1) as usize, part: Part::Inspect }
        } else {
            first_of(u.footprint, true, true, true)
        }),
        u.at.kind == Kind::Link ==> place_after(u) == (if u.at.index + 1 < u.footprint.links.len() {
            Place { kind: Kind::Link, index: (u.at.index + 1) as usize, part: Part::Inspect }
        } else {
            first_of(u.footprint, false, true, true)
        }),
        u.at.kind == Kind::Port ==> place_after(u) == (if u.at.index + 1 < u.footprint.ports.len() {
            Place { kind: Kind::Port, index: (u.at.index + 1) as usize, part: Part::Inspect }
        } else {
            first_of(u.footprint, false, false, true)
        }),
        u.at.kind == Kind::Qdisc ==> place_after(u) == (if u.at.index + 1 < u.footprint.qdiscs.len() {
            Place { kind: Kind::Qdisc, index: (u.at.index + 1) as usize, part: Part::Inspect }
        } else {
            first_of(u.footprint, false, false, false)
        }),
        u.at.kind == Kind::File && u.at.index + 1 < u.footprint.files.len() ==> place_after(u) == (Place {
            kind: Kind::File,
            index: (u.at.index + 1) as usize,
            part: Part::Act,
        }),
        u.at.kind == Kind::File && u.at.index + 1 >= u.footprint.files.len() ==> place_after(u).kind == Kind::End,
{
    reveal_with_fuel(place_from, 7);
}

/// An address that only the apply gave is looked for, and deleted from its device
/// where it is there.
pub proof fn law_address_is_taken_back(u: UndoView, dev: Seq<char>, cidr: Seq<char>, e: Seq<char>)
    requires
        u.at.kind == Kind::Address,
        u.at.part == Part::Inspect,
        u.footprint.addresses[u.at.index as int] == (dev, cidr),
    ensures
        undo_task(u) == TaskView::InspectAddress(dev, cidr),
        ({
            let there = undo_next(u, AnswerView::Present(Ok(true)));
            &&& undo_task(there) == TaskView::Ip(seq!["addr"@, "del"@, cidr, "dev"@, dev])
            &&& undo_next(there, AnswerView::Outcome(None)) == passed(u)
            &&& undo_next(there, AnswerView::Outcome(Some(e))).failures == u.failures.push(
                "remove tentative address on "@ + dev + ": "@ + e,
            )
        }),
        undo_next(u, AnswerView::Present(Ok(false))) == passed(u),
        undo_next(u, AnswerView::Present(Err(e))).failures == u.failures.push(
            "inspect tentative address on "@ + dev + ": "@ + e,
        ),
{
}

/// A link that only the apply made is looked for, and deleted where it is there.
pub proof fn law_link_is_taken_back(u: UndoView, name: Seq<char>, e: Seq<char>)
    requires
        u.at.kind == Kind::Link,
        u.at.part == Part::Inspect,
        u.footprint.links[u.at.index as int] == name,
    ensures
        undo_task(u) == TaskView::InspectLink(name),
        ({
            let there = undo_next(u, AnswerView::Present(Ok(true)));
            &&& undo_task(there) == TaskView::Ip(seq!["link"@, "delete"@, "dev"@, name])
            &&& undo_next(there, AnswerView::Outcome(None)) == passed(u)
            &&& undo_next(there, AnswerView::Outcome(Some(e))).failures == u.failures.push(
                "remove tentative link "@ + name + ": "@ + e,
            )
        }),
        undo_next(u, AnswerView::Present(Ok(false))) == passed(u),
        undo_next(u, AnswerView::Present(Err(e))).failures == u.failures.push(
            "inspect tentative link "@ + name + ": "@ + e,
        ),
{
}

/// A tunnel whose port is another than before gets that one again, and it is
/// then looked at whether it has it.
pub proof fn law_port_is_put_back(u: UndoView, name: Seq<char>, port: u16, other: u16)
    requires
        u.at.kind == Kind::Port,
        u.at.part == Part::Inspect,
        u.footprint.ports[u.at.index as int] == (name, port),
        other != port,
    ensures
        undo_task(u) == TaskView::InspectPort(name),
        undo_next(u, AnswerView::Port(Ok(port))) == passed(u),
        ({
            let changed = undo_next(u, AnswerView::Port(Ok(other)));
            let put = undo_next(changed, AnswerView::Outcome(None));
            &&& undo_task(changed) == TaskView::Wg(seq!["set"@, name, "listen-port"@, decimal(port as nat)])
            &&& undo_task(put) == TaskView::InspectPort(name)
            &&& undo_next(put, AnswerView::Port(Ok(port))) == passed(u)
            &&& undo_next(put, AnswerView::Port(Ok(other))).failures == u.failures.push(
                "WireGuard listen port on "@ + name + " was not restored"@,
            )
        }),
{
}

/// A device whose root is another than before gets that one again where the old
/// state gave it none; else it is only looked at once more. What it had by
/// itself comes back when the new one is deleted.
pub proof fn law_root_is_put_back(
    u: UndoView,
    dev: Seq<char>,
    prior: Option<RootQdiscView>,
    own: bool,
    now: Option<RootQdiscView>,
)
    requires
        u.at.kind == Kind::Qdisc,
        u.at.part == Part::Inspect,
        u.footprint.qdiscs[u.at.index as int] == (dev, prior, own),
    ensures
        undo_task(u) == TaskView::InspectQdisc(dev),
        roots_alike(now, prior) ==> undo_next(u, AnswerView::Root(Ok(now))) == passed(u),
        !roots_alike(now, prior) ==> ({
            let changed = undo_next(u, AnswerView::Root(Ok(now)));
            let put = if own {
                undo_next(changed, AnswerView::Outcome(None))
            } else {
                changed
            };
            &&& own && prior is Some && (prior->0).kind != "noqueue"@ && (prior->0).kind != "mq"@ ==> undo_task(changed)
                == TaskView::Tc(seq!["qdisc"@, "replace"@, "dev"@, dev, "root"@, (prior->0).kind])
            &&& own && (prior is None || (prior->0).kind == "noqueue"@ || (prior->0).kind == "mq"@) ==> undo_task(
                changed,
            ) == TaskView::Tc(seq!["qdisc"@, "delete"@, "dev"@, dev, "root"@])
            &&& undo_task(put) == TaskView::InspectQdisc(dev)
            &&& undo_next(put, AnswerView::Root(Ok(prior))).failures == u.failures || !roots_alike(prior, prior)
            &&& undo_next(put, AnswerView::Root(Ok(now))).failures == u.failures.push(
                "qdisc options on "@ + dev + " were not restored"@,
            )
        }),
{
}

/// A file of the services is put back as it was, or removed where it was not
/// there.
pub proof fn law_file_is_put_back(u: UndoView, path: Seq<char>, content: Option<Seq<u8>>, e: Seq<char>)
    requires
        u.at.kind == Kind::File,
        u.at.part == Part::Act,
        u.footprint.files[u.at.index as int] == (path, content),
    ensures
        undo_task(u) == TaskView::Restore(path, content),
        undo_next(u, AnswerView::Outcome(None)) == passed(u),
        undo_next(u, AnswerView::Outcome(Some(e))).failures == u.failures.push(e),
{
}

} // verus!
