//! The first-boot choice: the NIC, and the way to an address on it, with which
//! an appliance without an owner is reached.

use crate::exposure::{bootstrap_addresses, bootstrap_expose_ips};
use crate::json::{Json, JsonView};
use crate::nft;
use crate::nft::first_boot_script;
use crate::steps::{add_step, add_steps, bring_up, link_up, step_views, Step, StepView};
use crate::text;
use crate::text::{concat, holds_text, lemma_concat_has, lines_text, same, sorted, text_opt, texts, trim, trimmed};
use vstd::prelude::*;

verus! {

/// The first-boot choice.
#[derive(Debug)]
pub struct FirstBootOpt {
    pub nic: String,
    pub mode: String,
    pub cidr: Option<String>,
}

#[verifier::ext_equal]
pub struct OptView {
    pub nic: Seq<char>,
    pub mode: Seq<char>,
    pub cidr: Option<Seq<char>>,
}

impl View for FirstBootOpt {
    type V = OptView;

    open spec fn view(&self) -> OptView {
        OptView { nic: self.nic@, mode: self.mode@, cidr: text_opt(self.cidr) }
    }
}

/// The file that holds the choice.
pub const OPT_FILE: &'static str = "/var/lib/fwos/first-boot-opt.json";

/// A text member without white space at its ends, empty where there is none.
pub open spec fn trimmed_member(v: JsonView, key: Seq<char>) -> Seq<char> {
    match v.text_member(key) {
        Some(s) => trim(s),
        None => trim(""@),
    }
}

/// The choice that a request makes, or what is wrong with it.
pub open spec fn opt_of(v: JsonView) -> Result<OptView, Seq<char>> {
    let nic = trimmed_member(v, "nic"@);
    let mode = trimmed_member(v, "mode"@);
    let cidr = match v.text_member("cidr"@) {
        Some(s) => if trim(s).len() > 0 {
            Some(trim(s))
        } else {
            None
        },
        None => None,
    };
    if nic.len() == 0 {
        Err("missing nic"@)
    } else if mode != "static"@ && mode != "dhcp"@ && mode != "slaac"@ {
        Err("mode must be static, dhcp, or slaac"@)
    } else if mode == "static"@ && cidr is None {
        Err("static opt needs a cidr"@)
    } else {
        Ok(OptView { nic, mode, cidr })
    }
}

fn member(v: &Json, key: &str) -> (r: String)
    ensures
        r@ == trimmed_member(v@, key@),
{
    match v.text_member(key) {
        Some(s) => trimmed(s),
        None => trimmed(""),
    }
}

/// The choice that a request makes.
pub fn parse_opt(v: &Json) -> (r: Result<FirstBootOpt, String>)
    ensures
        match r {
            Ok(o) => opt_of(v@) == Ok::<OptView, Seq<char>>(o@),
            Err(e) => opt_of(v@) == Err::<OptView, Seq<char>>(e@),
        },
{
    let nic = member(v, "nic");
    let mode = member(v, "mode");
    if nic.as_str().is_empty() {
        return Err("missing nic".to_owned());
    }
    if !same(mode.as_str(), "static") && !same(mode.as_str(), "dhcp") && !same(mode.as_str(), "slaac") {
        return Err("mode must be static, dhcp, or slaac".to_owned());
    }
    let cidr = match v.text_member("cidr") {
        Some(s) => {
            let t = trimmed(s);
            if t.as_str().is_empty() {
                None
            } else {
                Some(t)
            }
        },
        None => None,
    };
    if same(mode.as_str(), "static") && cidr.is_none() {
        return Err("static opt needs a cidr".to_owned());
    }
    Ok(FirstBootOpt { nic, mode, cidr })
}

/// A choice that a request makes can be carried out: it names a NIC and a
/// known way and, where that is static, an address.
pub proof fn law_choice_is_complete(v: JsonView)
    requires
        opt_of(v) is Ok,
    ensures
        ({
            let o = opt_of(v)->Ok_0;
            &&& o.nic.len() > 0
            &&& o.mode == "static"@ || o.mode == "dhcp"@ || o.mode == "slaac"@
            &&& o.mode == "static"@ ==> o.cidr is Some
        }),
{
}

// ---------------------------------------------------------------------------
// Plans
// ---------------------------------------------------------------------------

pub open spec fn sysctl(nic: Seq<char>, family: Seq<char>, key: Seq<char>, value: Seq<char>) -> StepView {
    StepView::Sysctl(nic, family, key, value)
}

fn set_sysctl(nic: &str, family: &str, key: &str, value: &str) -> (r: Step)
    ensures
        r@ == sysctl(nic@, family@, key@, value@),
{
    Step::Sysctl(nic.to_owned(), family.to_owned(), key.to_owned(), value.to_owned())
}

/// A NIC that was not chosen learns no address and has none.
pub open spec fn lock_steps(nic: Seq<char>) -> Seq<StepView> {
    seq![
        sysctl(nic, "ipv6"@, "accept_ra"@, "0"@),
        sysctl(nic, "ipv6"@, "autoconf"@, "0"@),
        sysctl(nic, "ipv4"@, "rp_filter"@, "2"@),
        StepView::Ip(seq!["addr"@, "flush"@, "dev"@, nic]),
    ]
}

/// The steps that lock a NIC.
pub fn lock_unopted(nic: &str) -> (r: Vec<Step>)
    ensures
        step_views(r@) == lock_steps(nic@),
{
    let flush = vec!["addr".to_owned(), "flush".to_owned(), "dev".to_owned(), nic.to_owned()];
    assert(texts(flush@) == seq!["addr"@, "flush"@, "dev"@, nic@]);
    let r = vec![
        set_sysctl(nic, "ipv6", "accept_ra", "0"),
        set_sysctl(nic, "ipv6", "autoconf", "0"),
        set_sysctl(nic, "ipv4", "rp_filter", "2"),
        Step::Ip(flush),
    ];
    assert(step_views(r@) == lock_steps(nic@));
    r
}

/// The rules that let nobody to the web interface.
pub open spec fn closed_script() -> Seq<char> {
    first_boot_script(""@, Seq::empty())
}

fn close_script() -> (r: String)
    ensures
        r@ == closed_script(),
{
    let none: Vec<String> = Vec::new();
    assert(texts(none@) == Seq::<Seq<char>>::empty());
    nft::program_first_boot_nft("", none.as_slice())
}

/// What a choice set up is taken down, with the web interface closed
/// meanwhile.
pub open spec fn teardown_steps(o: OptView) -> Seq<StepView> {
    seq![StepView::StopDhcp] + (if o.mode == "slaac"@ {
        seq![sysctl(o.nic, "ipv6"@, "accept_ra"@, "0"@), sysctl(o.nic, "ipv6"@, "autoconf"@, "0"@)]
    } else {
        Seq::empty()
    }) + seq![StepView::LockIfPresent(o.nic), StepView::Nft(closed_script())]
}

/// The steps that take down what a choice set up.
pub fn teardown_opt(o: &FirstBootOpt) -> (r: Vec<Step>)
    ensures
        step_views(r@) == teardown_steps(o@),
{
    let mut plan: Vec<Step> = Vec::new();
    add_step(&mut plan, Step::StopDhcp);
    if same(o.mode.as_str(), "slaac") {
        add_step(&mut plan, set_sysctl(o.nic.as_str(), "ipv6", "accept_ra", "0"));
        add_step(&mut plan, set_sysctl(o.nic.as_str(), "ipv6", "autoconf", "0"));
    }
    add_step(&mut plan, Step::LockIfPresent(o.nic.clone()));
    add_step(&mut plan, Step::Nft(close_script()));
    assert(step_views(plan@) == teardown_steps(o@));
    plan
}

/// The way to an address.
pub open spec fn mode_steps(o: OptView) -> Seq<StepView> {
    if o.mode == "static"@ {
        match o.cidr {
            Some(c) => seq![StepView::AddAddress(o.nic, c)],
            None => seq![StepView::Fail("static opt needs a cidr"@)],
        }
    } else if o.mode == "dhcp"@ {
        seq![StepView::Dhcp(o.nic)]
    } else if o.mode == "slaac"@ {
        seq![sysctl(o.nic, "ipv6"@, "accept_ra"@, "2"@), sysctl(o.nic, "ipv6"@, "autoconf"@, "1"@)]
    } else {
        seq![StepView::Fail("unknown opt mode "@ + o.mode)]
    }
}

/// What of an earlier choice is taken down: nothing where it is the same.
pub open spec fn replaced_steps(o: OptView, earlier: Option<OptView>) -> Seq<StepView> {
    match earlier {
        Some(p) => if p != o {
            teardown_steps(p)
        } else {
            Seq::empty()
        },
        None => Seq::empty(),
    }
}

/// The steps of a choice: only a Traffic NIC can be chosen, and nothing is
/// touched where another link is named.
pub open spec fn opt_steps(o: OptView, earlier: Option<OptView>, nics: Seq<Seq<char>>) -> Seq<StepView> {
    if !nics.contains(o.nic) {
        seq![StepView::Fail(o.nic + " is not a Traffic NIC"@)]
    } else {
        replaced_steps(o, earlier) + seq![StepView::RequireLink(o.nic), link_up(o.nic)] + mode_steps(o)
            + seq![StepView::Publish(o.nic, o.mode == "slaac"@)]
    }
}

pub open spec fn opt_view(o: Option<FirstBootOpt>) -> Option<OptView> {
    match o {
        Some(x) => Some(x@),
        None => None,
    }
}

fn same_opt(a: &FirstBootOpt, b: &FirstBootOpt) -> (r: bool)
    ensures
        r == (a@ == b@),
{
    let same_cidr = match (&a.cidr, &b.cidr) {
        (Some(x), Some(y)) => same(x.as_str(), y.as_str()),
        (None, None) => true,
        _ => false,
    };
    let r = same(a.nic.as_str(), b.nic.as_str()) && same(a.mode.as_str(), b.mode.as_str()) && same_cidr;
    assert(r ==> a@ =~= b@);
    r
}

fn plan_mode(o: &FirstBootOpt) -> (r: Vec<Step>)
    ensures
        step_views(r@) == mode_steps(o@),
{
    let mut plan: Vec<Step> = Vec::new();
    if same(o.mode.as_str(), "static") {
        match &o.cidr {
            Some(c) => add_step(&mut plan, Step::AddAddress(o.nic.clone(), c.clone())),
            None => add_step(&mut plan, Step::Fail("static opt needs a cidr".to_owned())),
        }
    } else if same(o.mode.as_str(), "dhcp") {
        add_step(&mut plan, Step::Dhcp(o.nic.clone()));
    } else if same(o.mode.as_str(), "slaac") {
        add_step(&mut plan, set_sysctl(o.nic.as_str(), "ipv6", "accept_ra", "2"));
        add_step(&mut plan, set_sysctl(o.nic.as_str(), "ipv6", "autoconf", "1"));
    } else {
        add_step(&mut plan, Step::Fail("unknown opt mode ".to_owned().concat(o.mode.as_str())));
    }
    assert(step_views(plan@) == mode_steps(o@));
    plan
}

/// The steps of a choice.
pub fn apply_opt(o: &FirstBootOpt, earlier: &Option<FirstBootOpt>, nics: &Vec<String>) -> (r: Vec<Step>)
    ensures
        step_views(r@) == opt_steps(o@, opt_view(*earlier), texts(nics@)),
{
    let mut plan: Vec<Step> = Vec::new();
    if !holds_text(nics, o.nic.as_str()) {
        add_step(&mut plan, Step::Fail(o.nic.clone().concat(" is not a Traffic NIC")));
        assert(step_views(plan@) == opt_steps(o@, opt_view(*earlier), texts(nics@)));
        return plan;
    }
    match earlier {
        Some(p) => {
            if !same_opt(p, o) {
                add_steps(&mut plan, teardown_opt(p));
            }
        },
        None => {},
    }
    assert(step_views(plan@) == replaced_steps(o@, opt_view(*earlier)));
    let ghost before = step_views(plan@);
    add_step(&mut plan, Step::RequireLink(o.nic.clone()));
    add_step(&mut plan, bring_up(o.nic.as_str()));
    assert(step_views(plan@) == before + seq![StepView::RequireLink(o.nic@), link_up(o.nic@)]);
    add_steps(&mut plan, plan_mode(o));
    let ghost before = step_views(plan@);
    let slaac = same(o.mode.as_str(), "slaac");
    add_step(&mut plan, Step::Publish(o.nic.clone(), slaac));
    assert(step_views(plan@) == before + seq![StepView::Publish(o.nic@, slaac)]);
    plan
}

/// The choice is suspended, and forgotten where that is said.
pub open spec fn suspend_steps(o: Option<OptView>, discard: bool) -> Seq<StepView> {
    (match o {
        Some(x) => teardown_steps(x),
        None => Seq::empty(),
    }) + seq![StepView::Nft("destroy table inet fwos-first-boot\n"@)] + (if discard {
        seq![StepView::Remove(OPT_FILE@)]
    } else {
        Seq::empty()
    })
}

/// The steps that suspend the choice, and forget it where that is said.
pub fn suspend_opt(o: &Option<FirstBootOpt>, discard: bool) -> (r: Vec<Step>)
    ensures
        step_views(r@) == suspend_steps(opt_view(*o), discard),
{
    let mut plan: Vec<Step> = Vec::new();
    assert(step_views(plan@) == Seq::<StepView>::empty());
    match o {
        Some(x) => {
            plan = teardown_opt(x);
        },
        None => {},
    }
    let ghost before = step_views(plan@);
    add_step(&mut plan, Step::Nft("destroy table inet fwos-first-boot\n".to_owned()));
    if discard {
        add_step(&mut plan, Step::Remove(OPT_FILE.to_owned()));
    }
    assert(step_views(plan@) == suspend_steps(opt_view(*o), discard));
    plan
}

/// Whether the choice may still be made: not once the appliance has an owner.
pub fn opt_allowed(bootstrapped: bool) -> (r: Result<(), String>)
    ensures
        text::failure(r) == if bootstrapped {
            Some("already bootstrapped"@)
        } else {
            None
        },
{
    if bootstrapped {
        Err("already bootstrapped".to_owned())
    } else {
        Ok(())
    }
}

/// No step of a choice that names another link than a Traffic NIC touches
/// anything.
pub proof fn law_only_traffic_nics_are_chosen(o: OptView, earlier: Option<OptView>, nics: Seq<Seq<char>>)
    requires
        !nics.contains(o.nic),
    ensures
        opt_steps(o, earlier, nics).len() == 1,
        opt_steps(o, earlier, nics)[0] is Fail,
{
}

/// While a choice takes the place of another, the web interface is closed
/// before the new NIC is touched.
pub proof fn law_replacement_closes_the_web_interface(o: OptView, p: OptView, nics: Seq<Seq<char>>)
    requires
        nics.contains(o.nic),
        p != o,
    ensures
        ({
            let n = teardown_steps(p).len() as int;
            &&& opt_steps(o, Some(p), nics)[n - 1] == StepView::Nft(closed_script())
            &&& opt_steps(o, Some(p), nics)[n] == StepView::RequireLink(o.nic)
        }),
{
}

// ---------------------------------------------------------------------------
// Exposure while there is no owner
// ---------------------------------------------------------------------------

/// What the rules for the chosen NIC were last made from: the NIC and the
/// addresses at which the web interface is reached on it, in order.
pub struct Exposed {
    pub nic: String,
    pub addresses: Vec<String>,
}

pub open spec fn exposed_view(e: Option<Exposed>) -> Option<(Seq<char>, Seq<Seq<char>>)> {
    match e {
        Some(x) => Some((x.nic@, texts(x.addresses@))),
        None => None,
    }
}

/// Whether `t` holds the addresses at which the web interface is reached
/// before the appliance has an owner, in order.
pub open spec fn exposes(t: Seq<Seq<char>>, cidrs: Seq<Seq<char>>) -> bool {
    sorted(t) && t.to_multiset() == bootstrap_addresses(cidrs).to_multiset()
}

fn same_texts(a: &Vec<String>, b: &Vec<String>) -> (r: bool)
    ensures
        r == (texts(a@) == texts(b@)),
{
    if a.len() != b.len() {
        assert(texts(a@).len() != texts(b@).len());
        return false;
    }
    let mut i: usize = 0;
    while i < a.len()
        invariant
            a@.len() == b@.len(),
            i <= a@.len(),
            forall|j: int| 0 <= j < i ==> (#[trigger] a@[j])@ == b@[j]@,
        decreases a@.len() - i,
    {
        if !same(a[i].as_str(), b[i].as_str()) {
            assert(texts(a@)[i as int] != texts(b@)[i as int]);
            return false;
        }
        i = i + 1;
    }
    assert(texts(a@) == texts(b@));
    true
}

/// Takes note of the chosen NIC and of the addresses at which the web
/// interface is reached on it now, and says whether the rules have to be made
/// again: where there is no owner and no state yet, and the NIC or those
/// addresses are others than before.
pub fn refresh_bootstrap_exposure(
    observed: &mut Option<Exposed>,
    owned: bool,
    now: Option<(String, Vec<String>)>,
) -> (r: bool)
    ensures
        match now {
            Some((nic, cidrs)) if !owned => {
                &&& exposed_view(*final(observed)) matches Some((n, t)) && n == nic@ && exposes(
                    t,
                    texts(cidrs@),
                )
                &&& r == (exposed_view(*old(observed)) != exposed_view(*final(observed)))
            },
            _ => exposed_view(*final(observed)) is None && !r,
        },
{
    if owned {
        *observed = None;
        return false;
    }
    match now {
        None => {
            *observed = None;
            false
        },
        Some((nic, cidrs)) => {
            let addresses = text::sort_texts(&bootstrap_expose_ips(cidrs.as_slice()));
            let unchanged = match &*observed {
                Some(o) => same(o.nic.as_str(), nic.as_str()) && same_texts(&o.addresses, &addresses),
                None => false,
            };
            *observed = Some(Exposed { nic, addresses });
            !unchanged
        },
    }
}

/// The order in which a NIC's addresses are listed does not matter: the rules
/// are made again only where an address came or went.
pub proof fn law_listing_does_not_matter(
    a: Seq<Seq<char>>,
    b: Seq<Seq<char>>,
    listed: Seq<Seq<char>>,
    again: Seq<Seq<char>>,
)
    requires
        exposes(a, listed),
        exposes(b, again),
    ensures
        a == b <==> bootstrap_addresses(listed).to_multiset() == bootstrap_addresses(again).to_multiset(),
{
    if a.to_multiset() == b.to_multiset() {
        text::lemma_sorted_is_unique(a, b);
    }
}

// ---------------------------------------------------------------------------
// An attempt to take ownership that was cut short
// ---------------------------------------------------------------------------

pub open spec fn link_removal(links: Seq<Seq<char>>) -> spec_fn(int) -> Seq<StepView> {
    |i: int|
        seq![StepView::IpIfLink(links[i], seq!["link"@, "delete"@, "dev"@, links[i]])]
}

/// What an attempt set up is taken down: its tagged links, every address, and
/// all rules but the host's own.
pub open spec fn attempt_steps(links: Seq<Seq<char>>) -> Seq<StepView> {
    seq![StepView::StopDhcp] + concat(links.len(), link_removal(links)) + seq![
        StepView::LockTrafficNics,
        StepView::Nft("flush ruleset\n"@),
        StepView::Nft(lines_text(nft::host_pull_lines())),
    ]
}

/// What an attempt left behind is forgotten; its own record goes last.
pub open spec fn forget_steps() -> Seq<StepView> {
    seq![
        StepView::Remove("/var/lib/fwos/desired.toml"@),
        StepView::Remove("/var/lib/fwos/identity.json"@),
        StepView::Remove("/var/lib/fwos/hostname"@),
        StepView::Remove("/var/lib/fwos/kea/kea-dhcp4.conf"@),
        StepView::Remove("/var/lib/fwos/kea/kea-dhcp6.conf"@),
        StepView::Remove("/var/lib/fwos/unbound/unbound.conf"@),
        StepView::Remove("/var/lib/fwos/bootstrap-attempt.json"@),
    ]
}

/// The steps that bring an appliance without an owner back to where it was
/// before an attempt; `attempt` are the tagged links of one that was begun.
pub open spec fn recovery_steps(owned: bool, attempt: Option<Seq<Seq<char>>>, has_opt: bool) -> Seq<
    StepView,
> {
    if owned {
        Seq::empty()
    } else {
        match attempt {
            Some(links) => attempt_steps(links) + forget_steps() + seq![
                if has_opt {
                    StepView::ApplyOpt
                } else {
                    StepView::Nft(closed_script())
                },
            ],
            None => forget_steps(),
        }
    }
}

fn plan_attempt(links: &Vec<String>) -> (r: Vec<Step>)
    ensures
        step_views(r@) == attempt_steps(texts(links@)),
{
    let ghost t = texts(links@);
    let ghost f = link_removal(t);
    let mut plan: Vec<Step> = Vec::new();
    add_step(&mut plan, Step::StopDhcp);
    let ghost base = step_views(plan@);
    assert(base == seq![StepView::StopDhcp]);
    let mut i: usize = 0;
    assert(base + concat(0, f) == base);
    while i < links.len()
        invariant
            t == texts(links@),
            f == link_removal(t),
            i <= links@.len(),
            step_views(plan@) == base + concat(i as nat, f),
        decreases links@.len() - i,
    {
        assert(t[i as int] == links@[i as int]@);
        let name = links[i].as_str();
        let args = vec!["link".to_owned(), "delete".to_owned(), "dev".to_owned(), name.to_owned()];
        assert(texts(args@) == seq!["link"@, "delete"@, "dev"@, name@]);
        add_step(&mut plan, Step::IpIfLink(name.to_owned(), args));
        assert(step_views(plan@) == base + (concat(i as nat, f) + f(i as int)));
        i = i + 1;
    }
    add_step(&mut plan, Step::LockTrafficNics);
    add_step(&mut plan, Step::Nft("flush ruleset\n".to_owned()));
    add_step(&mut plan, Step::Nft(nft::host_pull_nft()));
    assert(step_views(plan@) == attempt_steps(t));
    plan
}

fn plan_forget() -> (r: Vec<Step>)
    ensures
        step_views(r@) == forget_steps(),
{
    let r = vec![
        Step::Remove("/var/lib/fwos/desired.toml".to_owned()),
        Step::Remove("/var/lib/fwos/identity.json".to_owned()),
        Step::Remove("/var/lib/fwos/hostname".to_owned()),
        Step::Remove("/var/lib/fwos/kea/kea-dhcp4.conf".to_owned()),
        Step::Remove("/var/lib/fwos/kea/kea-dhcp6.conf".to_owned()),
        Step::Remove("/var/lib/fwos/unbound/unbound.conf".to_owned()),
        Step::Remove("/var/lib/fwos/bootstrap-attempt.json".to_owned()),
    ];
    assert(step_views(r@) == forget_steps());
    r
}

/// The steps that bring an appliance without an owner back to where it was
/// before an attempt.
pub fn recover_incomplete_bootstrap(owned: bool, attempt: &Option<Vec<String>>, has_opt: bool) -> (r: Vec<
    Step,
>)
    ensures
        step_views(r@) == recovery_steps(
            owned,
            match *attempt {
                Some(l) => Some(texts(l@)),
                None => None,
            },
            has_opt,
        ),
{
    let mut plan: Vec<Step> = Vec::new();
    assert(step_views(plan@) == Seq::<StepView>::empty());
    if owned {
        return plan;
    }
    match attempt {
        Some(links) => {
            plan = plan_attempt(links);
            add_steps(&mut plan, plan_forget());
            let ghost before = step_views(plan@);
            if has_opt {
                add_step(&mut plan, Step::ApplyOpt);
                assert(step_views(plan@) == before + seq![StepView::ApplyOpt]);
            } else {
                add_step(&mut plan, Step::Nft(close_script()));
                assert(step_views(plan@) == before + seq![StepView::Nft(closed_script())]);
            }
            plan
        },
        None => plan_forget(),
    }
}

/// An appliance that has an owner is left alone.
pub proof fn law_recovery_spares_an_owner(attempt: Option<Seq<Seq<char>>>, has_opt: bool)
    ensures
        recovery_steps(true, attempt, has_opt).len() == 0,
{
}

/// The record of an attempt goes only after everything else that the attempt
/// left behind, so that a recovery that is cut short is done again.
pub proof fn law_attempt_record_goes_last(attempt: Option<Seq<Seq<char>>>, has_opt: bool, k: int)
    requires
        0 <= k < recovery_steps(false, attempt, has_opt).len(),
        recovery_steps(false, attempt, has_opt)[k] is Remove,
        recovery_steps(false, attempt, has_opt)[k] != StepView::Remove(
            "/var/lib/fwos/bootstrap-attempt.json"@,
        ),
    ensures
        exists|l: int|
            k < l < recovery_steps(false, attempt, has_opt).len() && #[trigger] recovery_steps(
                false,
                attempt,
                has_opt,
            )[l] == StepView::Remove("/var/lib/fwos/bootstrap-attempt.json"@),
{
    let all = recovery_steps(false, attempt, has_opt);
    match attempt {
        Some(links) => {
            let n = attempt_steps(links).len() as int;
            assert(all[n + 6] == StepView::Remove("/var/lib/fwos/bootstrap-attempt.json"@));
        },
        None => {
            assert(all[6] == StepView::Remove("/var/lib/fwos/bootstrap-attempt.json"@));
        },
    }
}

/// A choice is understood where it names a NIC and a way to an address and, for
/// a static one, the address, each with or without white space round it.
pub proof fn law_sound_choice_is_understood(v: JsonView, nic: Seq<char>, mode: Seq<char>, cidr: Seq<char>)
    requires
        v.member("nic"@) == Some(JsonView::Text(nic)),
        v.member("mode"@) == Some(JsonView::Text(mode)),
        v.member("cidr"@) is None || v.member("cidr"@) == Some(JsonView::Text(cidr)),
        trim(nic).len() > 0,
        trim(mode) == "dhcp"@ || trim(mode) == "slaac"@ || (trim(mode) == "static"@ && v.member("cidr"@) is Some
            && trim(cidr).len() > 0),
    ensures
        opt_of(v) == Ok::<OptView, Seq<char>>(
            OptView {
                nic: trim(nic),
                mode: trim(mode),
                cidr: if v.member("cidr"@) is Some && trim(cidr).len() > 0 {
                    Some(trim(cidr))
                } else {
                    None
                },
            },
        ),
{
    reveal_strlit("dhcp");
    reveal_strlit("slaac");
    reveal_strlit("static");
    assert("dhcp"@.len() == 4 && "slaac"@.len() == 5 && "static"@.len() == 6);
}

/// A choice of a Traffic NIC is carried out: the link is required and brought up,
/// gets its address in the way that was chosen, and the web interface is then
/// published on it, at the very end.
pub proof fn law_choice_is_carried_out(o: OptView, earlier: Option<OptView>, nics: Seq<Seq<char>>)
    requires
        nics.contains(o.nic),
    ensures
        ({
            let v = opt_steps(o, earlier, nics);
            let n = (match earlier {
                Some(p) => if p != o {
                    teardown_steps(p).len()
                } else {
                    0
                },
                None => 0,
            }) as int;
            &&& v.len() > n + 3
            &&& v[n] == StepView::RequireLink(o.nic)
            &&& v[n + 1] == StepView::Ip(seq!["link"@, "set"@, o.nic, "up"@])
            &&& o.mode == "static"@ && o.cidr is Some ==> v[n + 2] == StepView::AddAddress(o.nic, o.cidr->0)
            &&& o.mode == "dhcp"@ ==> v[n + 2] == StepView::Dhcp(o.nic)
            &&& o.mode == "slaac"@ ==> v[n + 2] == StepView::Sysctl(o.nic, "ipv6"@, "accept_ra"@, "2"@) && v[n + 3]
                == StepView::Sysctl(o.nic, "ipv6"@, "autoconf"@, "1"@)
            &&& v.last() == StepView::Publish(o.nic, o.mode == "slaac"@)
        }),
{
    reveal_strlit("dhcp");
    reveal_strlit("slaac");
    reveal_strlit("static");
    assert("dhcp"@.len() == 4 && "slaac"@.len() == 5 && "static"@.len() == 6);
    let a = replaced_steps(o, earlier);
    let b = seq![StepView::RequireLink(o.nic), link_up(o.nic)];
    let c = mode_steps(o);
    let v = opt_steps(o, earlier, nics);
    let n = a.len() as int;
    assert(c.len() >= 1);
    assert(v[n] == b[0] && v[n + 1] == b[1] && v[n + 2] == c[0]);
    assert(c.len() >= 2 ==> v[n + 3] == c[1]);
}

/// What a choice set up is taken down: the search for an address ends, the NIC
/// learns no more, is locked, and the web interface is closed.
pub proof fn law_choice_is_taken_down(o: OptView, discard: bool)
    ensures
        teardown_steps(o).contains(StepView::StopDhcp),
        teardown_steps(o).contains(StepView::LockIfPresent(o.nic)),
        teardown_steps(o).contains(StepView::Nft(closed_script())),
        o.mode == "slaac"@ ==> teardown_steps(o).contains(StepView::Sysctl(o.nic, "ipv6"@, "accept_ra"@, "0"@))
            && teardown_steps(o).contains(StepView::Sysctl(o.nic, "ipv6"@, "autoconf"@, "0"@)),
        teardown_steps(o).len() < suspend_steps(Some(o), discard).len(),
        suspend_steps(Some(o), discard).take(teardown_steps(o).len() as int) == teardown_steps(o),
        suspend_steps(Some(o), discard).contains(StepView::Nft("destroy table inet fwos-first-boot\n"@)),
        suspend_steps(None, discard).contains(StepView::Nft("destroy table inet fwos-first-boot\n"@)),
        suspend_steps(Some(o), true).contains(StepView::Remove("/var/lib/fwos/first-boot-opt.json"@)),
        suspend_steps(None, true).contains(StepView::Remove("/var/lib/fwos/first-boot-opt.json"@)),
        forall|k: int|
            0 <= k < suspend_steps(Some(o), false).len() ==> !(#[trigger] suspend_steps(Some(o), false)[k] is Remove),
{
    let t = teardown_steps(o);
    assert(t[0] is StopDhcp && t[t.len() - 2] == StepView::LockIfPresent(o.nic) && t[t.len() - 1] == StepView::Nft(
        closed_script(),
    ));
    if o.mode == "slaac"@ {
        assert(t[1] == StepView::Sysctl(o.nic, "ipv6"@, "accept_ra"@, "0"@) && t[2] == StepView::Sysctl(
            o.nic,
            "ipv6"@,
            "autoconf"@,
            "0"@,
        ));
    }
    let s = suspend_steps(Some(o), discard);
    assert(s.take(t.len() as int) =~= t);
    assert(s[t.len() as int] == StepView::Nft("destroy table inet fwos-first-boot\n"@));
    let e = suspend_steps(None, discard);
    assert(e[0] == StepView::Nft("destroy table inet fwos-first-boot\n"@));
    let f = suspend_steps(Some(o), true);
    assert(f[t.len() as int + 1] == StepView::Remove(OPT_FILE@));
    let g = suspend_steps(None, true);
    assert(g[1] == StepView::Remove(OPT_FILE@));
    let h = suspend_steps(Some(o), false);
    assert forall|k: int| 0 <= k < h.len() implies !(#[trigger] h[k] is Remove) by {
        if k < t.len() {
            assert(h[k] == t[k]);
        }
    }
}

/// A NIC that was not chosen learns no address, takes replies on any link, and
/// loses every address that it has.
pub proof fn law_unchosen_nic_is_locked(nic: Seq<char>)
    ensures
        lock_steps(nic).contains(StepView::Sysctl(nic, "ipv6"@, "accept_ra"@, "0"@)),
        lock_steps(nic).contains(StepView::Sysctl(nic, "ipv6"@, "autoconf"@, "0"@)),
        lock_steps(nic).contains(StepView::Sysctl(nic, "ipv4"@, "rp_filter"@, "2"@)),
        lock_steps(nic).last() == StepView::Ip(seq!["addr"@, "flush"@, "dev"@, nic]),
{
    let v = lock_steps(nic);
    assert(v.contains(v[0]) && v.contains(v[1]) && v.contains(v[2]));
}

/// An attempt that was begun is undone: its tagged links are deleted, every
/// Traffic NIC is locked, all rules go but the host's own, and what it wrote is
/// removed. Then the first-boot choice is made again, or the web interface closed.
pub proof fn law_begun_attempt_is_undone(links: Seq<Seq<char>>, has_opt: bool, i: int, file: Seq<char>)
    requires
        0 <= i < links.len(),
        file == "/var/lib/fwos/desired.toml"@ || file == "/var/lib/fwos/identity.json"@ || file
            == "/var/lib/fwos/hostname"@ || file == "/var/lib/fwos/kea/kea-dhcp4.conf"@ || file
            == "/var/lib/fwos/kea/kea-dhcp6.conf"@ || file == "/var/lib/fwos/unbound/unbound.conf"@ || file
            == "/var/lib/fwos/bootstrap-attempt.json"@,
    ensures
        ({
            let v = recovery_steps(false, Some(links), has_opt);
            &&& v.contains(StepView::StopDhcp)
            &&& v.contains(StepView::IpIfLink(links[i], seq!["link"@, "delete"@, "dev"@, links[i]]))
            &&& v.contains(StepView::LockTrafficNics)
            &&& v.contains(StepView::Nft("flush ruleset\n"@))
            &&& v.contains(StepView::Nft(lines_text(nft::host_pull_lines())))
            &&& v.contains(StepView::Remove(file))
            &&& has_opt ==> v.last() is ApplyOpt
            &&& !has_opt ==> v.last() == StepView::Nft(closed_script())
            &&& recovery_steps(false, None, has_opt).contains(StepView::Remove(file))
        }),
{
    let a = attempt_steps(links);
    let f = forget_steps();
    let v = recovery_steps(false, Some(links), has_opt);
    let step = StepView::IpIfLink(links[i], seq!["link"@, "delete"@, "dev"@, links[i]]);
    let piece = link_removal(links)(i);
    assert(piece[0] == step);
    lemma_concat_has(links.len(), link_removal(links), i, step);
    let c = concat(links.len(), link_removal(links));
    let e = choose|e: int| 0 <= e < c.len() && c[e] == step;
    assert(a[1 + e] == step && v[1 + e] == step);
    assert(a[0] is StopDhcp && v[0] == a[0]);
    let n = 1 + c.len() as int;
    assert(v[n] == a[n] && v[n + 1] == a[n + 1] && v[n + 2] == a[n + 2]);
    assert(a[n] is LockTrafficNics && a[n + 1] == StepView::Nft("flush ruleset\n"@));
    let m = a.len() as int;
    assert(f.contains(StepView::Remove(file))) by {
        assert(f.contains(f[0]) && f.contains(f[1]) && f.contains(f[2]) && f.contains(f[3]) && f.contains(f[4])
            && f.contains(f[5]) && f.contains(f[6]));
    }
    let k = choose|k: int| 0 <= k < f.len() && f[k] == StepView::Remove(file);
    assert(v[m + k] == f[k]);
}

} // verus!
