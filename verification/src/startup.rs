//! What is done before anything else when the appliance starts: its network
//! namespaces are made and joined, and the Traffic NICs taken over.

use crate::nft::{FWD_MGMT_VETH, MGMT_FWD_IP, MGMT_FWD_IP6};
use crate::opt;
use crate::opt::lock_steps;
use crate::steps::{add_step, bring_up, link_up, step_views, Step, StepView};
use crate::text::{concat, failure, texts};
use vstd::prelude::*;

verus! {

// ---------------------------------------------------------------------------
// Namespaces
// ---------------------------------------------------------------------------

/// A command of the set-up of a namespace: its arguments to `ip`, and what is
/// said where it cannot be run, or fails.
#[derive(Debug)]
pub struct SetupCommand {
    pub args: Vec<String>,
    pub starting: String,
    pub failing: String,
}

#[verifier::ext_equal]
pub struct CommandView {
    pub args: Seq<Seq<char>>,
    pub starting: Seq<char>,
    pub failing: Seq<char>,
}

impl View for SetupCommand {
    type V = CommandView;

    open spec fn view(&self) -> CommandView {
        CommandView { args: texts(self.args@), starting: self.starting@, failing: self.failing@ }
    }
}

pub open spec fn command_views(v: Seq<SetupCommand>) -> Seq<CommandView> {
    Seq::new(v.len(), |i: int| v[i]@)
}

/// Has both kinds of packets forwarded.
pub const FORWARD_SCRIPT: &'static str = "echo 1 > /proc/sys/net/ipv4/ip_forward; echo 1 > /proc/sys/net/ipv6/conf/all/forwarding";

/// Has no address learned by itself, and replies taken on any link.
pub const LOCK_SCRIPT: &'static str = "echo 0 > /proc/sys/net/ipv6/conf/all/accept_ra; echo 0 > /proc/sys/net/ipv6/conf/default/accept_ra; echo 0 > /proc/sys/net/ipv6/conf/all/autoconf; echo 0 > /proc/sys/net/ipv6/conf/default/autoconf; echo 2 > /proc/sys/net/ipv4/conf/all/rp_filter; echo 2 > /proc/sys/net/ipv4/conf/default/rp_filter";

/// The command that makes a namespace.
pub open spec fn add_namespace(name: Seq<char>) -> CommandView {
    CommandView {
        args: seq!["netns"@, "add"@, name],
        starting: "ip netns add "@ + name,
        failing: "ip netns add "@ + name + " failed"@,
    }
}

/// The commands that set a namespace up: the loopback device, forwarding, and
/// no address that is learned by itself.
pub open spec fn namespace_commands(name: Seq<char>) -> Seq<CommandView> {
    seq![
        CommandView {
            args: seq!["netns"@, "exec"@, name, "ip"@, "link"@, "set"@, "lo"@, "up"@],
            starting: "bring up lo in "@ + name,
            failing: "ip link set lo up in "@ + name + " failed"@,
        },
        CommandView {
            args: seq!["netns"@, "exec"@, name, "sh"@, "-c"@, FORWARD_SCRIPT@],
            starting: "ip_forward in "@ + name,
            failing: "enable ip_forward in "@ + name + " failed"@,
        },
        CommandView {
            args: seq!["netns"@, "exec"@, name, "sh"@, "-c"@, LOCK_SCRIPT@],
            starting: "lock autoconf in "@ + name,
            failing: "lock autoconf in "@ + name + " failed"@,
        },
    ]
}

/// The command that makes a namespace.
pub fn ensure_netns(name: &str) -> (r: SetupCommand)
    ensures
        r@ == add_namespace(name@),
{
    let args = vec!["netns".to_owned(), "add".to_owned(), name.to_owned()];
    assert(texts(args@) == seq!["netns"@, "add"@, name@]);
    SetupCommand {
        args,
        starting: "ip netns add ".to_owned().concat(name),
        failing: "ip netns add ".to_owned().concat(name).concat(" failed"),
    }
}

fn shell(name: &str, script: &str) -> (r: Vec<String>)
    ensures
        texts(r@) == seq!["netns"@, "exec"@, name@, "sh"@, "-c"@, script@],
{
    let args = vec![
        "netns".to_owned(),
        "exec".to_owned(),
        name.to_owned(),
        "sh".to_owned(),
        "-c".to_owned(),
        script.to_owned(),
    ];
    assert(texts(args@) == seq!["netns"@, "exec"@, name@, "sh"@, "-c"@, script@]);
    args
}

/// The commands that set a namespace up, each to be run only where the one
/// before succeeded.
pub fn set_up_netns(name: &str) -> (r: Vec<SetupCommand>)
    ensures
        command_views(r@) == namespace_commands(name@),
{
    let lo = vec![
        "netns".to_owned(),
        "exec".to_owned(),
        name.to_owned(),
        "ip".to_owned(),
        "link".to_owned(),
        "set".to_owned(),
        "lo".to_owned(),
        "up".to_owned(),
    ];
    assert(texts(lo@) == seq!["netns"@, "exec"@, name@, "ip"@, "link"@, "set"@, "lo"@, "up"@]);
    let r = vec![
        SetupCommand {
            args: lo,
            starting: "bring up lo in ".to_owned().concat(name),
            failing: "ip link set lo up in ".to_owned().concat(name).concat(" failed"),
        },
        SetupCommand {
            args: shell(name, FORWARD_SCRIPT),
            starting: "ip_forward in ".to_owned().concat(name),
            failing: "enable ip_forward in ".to_owned().concat(name).concat(" failed"),
        },
        SetupCommand {
            args: shell(name, LOCK_SCRIPT),
            starting: "lock autoconf in ".to_owned().concat(name),
            failing: "lock autoconf in ".to_owned().concat(name).concat(" failed"),
        },
    ];
    assert(command_views(r@) == namespace_commands(name@));
    r
}

/// What a command of the set-up came to: `status` is how the failure reads.
pub fn setup_outcome(c: &SetupCommand, success: bool, status: &str) -> (r: Result<(), String>)
    ensures
        failure(r) == if success {
            None
        } else {
            Some(c.failing@ + " ("@ + status@ + ")"@)
        },
{
    if success {
        Ok(())
    } else {
        Err(c.failing.clone().concat(" (").concat(status).concat(")"))
    }
}

// ---------------------------------------------------------------------------
// Joining the namespaces
// ---------------------------------------------------------------------------

/// A namespace.
#[derive(Clone, Copy, Debug, PartialEq, Eq, Structural)]
pub enum Space {
    Host,
    Fwd,
    Mgmt,
}

/// One step of joining the namespaces.
#[derive(Debug)]
pub enum PlumbStep {
    /// Unless the first link is there, make it with the second as its other
    /// end, and move that end to the management namespace.
    Pair(Space, &'static str, &'static str),
    /// Do a step in a namespace.
    Do(Space, Step),
    /// Have packets forwarded in a namespace.
    Forward(Space),
}

pub enum PlumbView {
    Pair(Space, Seq<char>, Seq<char>),
    Do(Space, StepView),
    Forward(Space),
}

impl View for PlumbStep {
    type V = PlumbView;

    open spec fn view(&self) -> PlumbView {
        match self {
            PlumbStep::Pair(s, a, b) => PlumbView::Pair(*s, a@, b@),
            PlumbStep::Do(s, x) => PlumbView::Do(*s, x@),
            PlumbStep::Forward(s) => PlumbView::Forward(*s),
        }
    }
}

pub open spec fn plumb_views(v: Seq<PlumbStep>) -> Seq<PlumbView> {
    Seq::new(v.len(), |i: int| v[i]@)
}

/// The namespace files.
pub const HOST_NS: &'static str = "/proc/1/ns/net";

pub const FWD_NS: &'static str = "/run/netns/fwd";

pub const MGMT_NS: &'static str = "/run/netns/mgmt";

/// The links that join the namespaces, and their addresses.
pub const HOST_VETH: &'static str = "h0mgmt";

pub const MGMT_VETH: &'static str = "m0mgmt";

pub const HOST_VETH_ADDR: &'static str = "169.254.127.1/30";

pub const MGMT_VETH_ADDR: &'static str = "169.254.127.2/30";

pub const HOST_VETH_GW: &'static str = "169.254.127.2";

pub const MGMT_FWD_VETH: &'static str = "m1mgmt";

pub const FWD_MGMT_ADDR: &'static str = "169.254.127.5/30";

pub const MGMT_FWD_ADDR: &'static str = "169.254.127.6/30";

pub const FWD_MGMT_GW: &'static str = "169.254.127.5";

pub const FWD_MGMT_ADDR6: &'static str = "fd53:1:1::5/64";

/// The network of the link between the host and the management namespace.
pub const HOST_LINK: &'static str = "169.254.127.0/30";

/// The commands that make a pair of links, the second in the management
/// namespace.
pub open spec fn pair_args(name: Seq<char>, peer: Seq<char>) -> Seq<Seq<Seq<char>>> {
    seq![
        seq!["link"@, "add"@, name, "type"@, "veth"@, "peer"@, "name"@, peer],
        seq!["link"@, "set"@, peer, "netns"@, MGMT_NS@],
    ]
}

/// The commands that make a pair of links.
pub fn make_pair(name: &str, peer: &str) -> (r: (Vec<String>, Vec<String>))
    ensures
        seq![texts(r.0@), texts(r.1@)] == pair_args(name@, peer@),
{
    let a = vec![
        "link".to_owned(),
        "add".to_owned(),
        name.to_owned(),
        "type".to_owned(),
        "veth".to_owned(),
        "peer".to_owned(),
        "name".to_owned(),
        peer.to_owned(),
    ];
    let b = vec![
        "link".to_owned(),
        "set".to_owned(),
        peer.to_owned(),
        "netns".to_owned(),
        MGMT_NS.to_owned(),
    ];
    assert(texts(a@) == pair_args(name@, peer@)[0]);
    assert(texts(b@) == pair_args(name@, peer@)[1]);
    (a, b)
}

pub open spec fn default_via(gateway: Seq<char>) -> StepView {
    StepView::Ip(seq!["route"@, "replace"@, "default"@, "via"@, gateway])
}

pub open spec fn loose_filter(nic: Seq<char>) -> StepView {
    StepView::Sysctl(nic, "ipv4"@, "rp_filter"@, "2"@)
}

/// The steps that join the namespaces: forwarding to management, the host to
/// management, and the way from the host through both to the outside.
pub open spec fn plumbing() -> Seq<PlumbView> {
    seq![
        PlumbView::Pair(Space::Fwd, FWD_MGMT_VETH@, MGMT_FWD_VETH@),
        PlumbView::Do(Space::Fwd, StepView::AddAddress(FWD_MGMT_VETH@, FWD_MGMT_ADDR@)),
        PlumbView::Do(Space::Fwd, StepView::AddAddress(FWD_MGMT_VETH@, FWD_MGMT_ADDR6@)),
        PlumbView::Do(Space::Fwd, link_up(FWD_MGMT_VETH@)),
        PlumbView::Do(Space::Mgmt, StepView::AddAddress(MGMT_FWD_VETH@, MGMT_FWD_ADDR@)),
        PlumbView::Do(Space::Mgmt, StepView::AddAddress(MGMT_FWD_VETH@, MGMT_FWD_IP6@ + "/64"@)),
        PlumbView::Do(Space::Mgmt, link_up(MGMT_FWD_VETH@)),
        PlumbView::Pair(Space::Host, HOST_VETH@, MGMT_VETH@),
        PlumbView::Do(Space::Host, StepView::AddAddress(HOST_VETH@, HOST_VETH_ADDR@)),
        PlumbView::Do(Space::Host, link_up(HOST_VETH@)),
        PlumbView::Do(Space::Mgmt, StepView::AddAddress(MGMT_VETH@, MGMT_VETH_ADDR@)),
        PlumbView::Do(Space::Mgmt, link_up(MGMT_VETH@)),
        PlumbView::Do(Space::Host, default_via(HOST_VETH_GW@)),
        PlumbView::Do(Space::Mgmt, default_via(FWD_MGMT_GW@)),
        PlumbView::Forward(Space::Mgmt),
        PlumbView::Forward(Space::Fwd),
        PlumbView::Do(Space::Fwd, loose_filter("all"@)),
        PlumbView::Do(Space::Fwd, loose_filter("default"@)),
        PlumbView::Do(Space::Fwd, loose_filter(FWD_MGMT_VETH@)),
        PlumbView::Do(
            Space::Fwd,
            StepView::Ip(
                seq!["route"@, "replace"@, HOST_LINK@, "via"@, MGMT_FWD_IP@, "dev"@, FWD_MGMT_VETH@],
            ),
        ),
    ]
}

fn address(space: Space, dev: &str, cidr: &str) -> (r: PlumbStep)
    ensures
        r@ == PlumbView::Do(space, StepView::AddAddress(dev@, cidr@)),
{
    PlumbStep::Do(space, Step::AddAddress(dev.to_owned(), cidr.to_owned()))
}

fn up(space: Space, dev: &str) -> (r: PlumbStep)
    ensures
        r@ == PlumbView::Do(space, link_up(dev@)),
{
    PlumbStep::Do(space, bring_up(dev))
}

fn route_default(space: Space, gateway: &str) -> (r: PlumbStep)
    ensures
        r@ == PlumbView::Do(space, default_via(gateway@)),
{
    let args = vec![
        "route".to_owned(),
        "replace".to_owned(),
        "default".to_owned(),
        "via".to_owned(),
        gateway.to_owned(),
    ];
    assert(texts(args@) == seq!["route"@, "replace"@, "default"@, "via"@, gateway@]);
    PlumbStep::Do(space, Step::Ip(args))
}

fn filter(nic: &str) -> (r: PlumbStep)
    ensures
        r@ == PlumbView::Do(Space::Fwd, loose_filter(nic@)),
{
    PlumbStep::Do(
        Space::Fwd,
        Step::Sysctl(nic.to_owned(), "ipv4".to_owned(), "rp_filter".to_owned(), "2".to_owned()),
    )
}

/// The steps that join the namespaces, each to be done only where the one
/// before was.
pub fn setup_plumbing() -> (r: Vec<PlumbStep>)
    ensures
        plumb_views(r@) == plumbing(),
{
    let back = vec![
        "route".to_owned(),
        "replace".to_owned(),
        HOST_LINK.to_owned(),
        "via".to_owned(),
        MGMT_FWD_IP.to_owned(),
        "dev".to_owned(),
        FWD_MGMT_VETH.to_owned(),
    ];
    assert(texts(back@) == seq![
        "route"@,
        "replace"@,
        HOST_LINK@,
        "via"@,
        MGMT_FWD_IP@,
        "dev"@,
        FWD_MGMT_VETH@,
    ]);
    let inner = MGMT_FWD_IP6.to_owned().concat("/64");
    let r = vec![
        PlumbStep::Pair(Space::Fwd, FWD_MGMT_VETH, MGMT_FWD_VETH),
        address(Space::Fwd, FWD_MGMT_VETH, FWD_MGMT_ADDR),
        address(Space::Fwd, FWD_MGMT_VETH, FWD_MGMT_ADDR6),
        up(Space::Fwd, FWD_MGMT_VETH),
        address(Space::Mgmt, MGMT_FWD_VETH, MGMT_FWD_ADDR),
        address(Space::Mgmt, MGMT_FWD_VETH, inner.as_str()),
        up(Space::Mgmt, MGMT_FWD_VETH),
        PlumbStep::Pair(Space::Host, HOST_VETH, MGMT_VETH),
        address(Space::Host, HOST_VETH, HOST_VETH_ADDR),
        up(Space::Host, HOST_VETH),
        address(Space::Mgmt, MGMT_VETH, MGMT_VETH_ADDR),
        up(Space::Mgmt, MGMT_VETH),
        route_default(Space::Host, HOST_VETH_GW),
        route_default(Space::Mgmt, FWD_MGMT_GW),
        PlumbStep::Forward(Space::Mgmt),
        PlumbStep::Forward(Space::Fwd),
        filter("all"),
        filter("default"),
        filter(FWD_MGMT_VETH),
        PlumbStep::Do(Space::Fwd, Step::Ip(back)),
    ];
    assert(plumb_views(r@) =~= plumbing());
    r
}

/// What is done to a Traffic NIC once it is in the forwarding namespace: it is
/// locked and brought up.
pub open spec fn claim_steps(nic: Seq<char>) -> Seq<StepView> {
    lock_steps(nic).push(link_up(nic))
}

/// What is done to a Traffic NIC once it is in the forwarding namespace.
pub fn claim_traffic_nic(nic: &str) -> (r: Vec<Step>)
    ensures
        step_views(r@) == claim_steps(nic@),
{
    let mut plan = opt::lock_unopted(nic);
    add_step(&mut plan, bring_up(nic));
    plan
}

/// The arguments that move a link to the namespace that a process holds open.
pub fn move_link(nic: &str, space: &str) -> (r: Vec<String>)
    ensures
        texts(r@) == seq!["link"@, "set"@, nic@, "netns"@, space@],
{
    let args = vec![
        "link".to_owned(),
        "set".to_owned(),
        nic.to_owned(),
        "netns".to_owned(),
        space.to_owned(),
    ];
    assert(texts(args@) == seq!["link"@, "set"@, nic@, "netns"@, space@]);
    args
}

/// What becomes of work that was done in another namespace, where going back
/// may fail too: the failure of the work comes first.
pub fn with_netns(work: Result<(), String>, back: Result<(), String>) -> (r: Result<(), String>)
    ensures
        failure(r) == if failure(work) is Some {
            failure(work)
        } else {
            failure(back)
        },
{
    match work {
        Err(e) => Err(e),
        Ok(_) => back,
    }
}

/// A Traffic NIC learns no address and has none before it is brought up.
pub proof fn law_nic_is_locked_before_it_is_up(nic: Seq<char>)
    ensures
        claim_steps(nic).last() == link_up(nic),
        claim_steps(nic).drop_last() == lock_steps(nic),
{
    assert(claim_steps(nic).drop_last() =~= lock_steps(nic));
}

/// The two ends of each link between namespaces are made, addressed within one
/// network and brought up.
pub proof fn law_namespaces_are_joined()
    ensures
        ({
            let v = plumbing();
            &&& v.contains(PlumbView::Pair(Space::Fwd, "f0mgmt"@, "m1mgmt"@))
            &&& v.contains(PlumbView::Pair(Space::Host, "h0mgmt"@, "m0mgmt"@))
            &&& v.contains(PlumbView::Do(Space::Fwd, StepView::AddAddress("f0mgmt"@, "169.254.127.5/30"@)))
            &&& v.contains(PlumbView::Do(Space::Mgmt, StepView::AddAddress("m1mgmt"@, "169.254.127.6/30"@)))
            &&& v.contains(PlumbView::Do(Space::Fwd, StepView::AddAddress("f0mgmt"@, "fd53:1:1::5/64"@)))
            &&& v.contains(PlumbView::Do(Space::Mgmt, StepView::AddAddress("m1mgmt"@, "fd53:1:1::6"@ + "/64"@)))
            &&& v.contains(PlumbView::Do(Space::Host, StepView::AddAddress("h0mgmt"@, "169.254.127.1/30"@)))
            &&& v.contains(PlumbView::Do(Space::Mgmt, StepView::AddAddress("m0mgmt"@, "169.254.127.2/30"@)))
            &&& v.contains(PlumbView::Do(Space::Fwd, StepView::Ip(seq!["link"@, "set"@, "f0mgmt"@, "up"@])))
            &&& v.contains(PlumbView::Do(Space::Mgmt, StepView::Ip(seq!["link"@, "set"@, "m1mgmt"@, "up"@])))
            &&& v.contains(PlumbView::Do(Space::Host, StepView::Ip(seq!["link"@, "set"@, "h0mgmt"@, "up"@])))
            &&& v.contains(PlumbView::Do(Space::Mgmt, StepView::Ip(seq!["link"@, "set"@, "m0mgmt"@, "up"@])))
        }),
{
    let v = plumbing();
    assert(v.contains(v[0]) && v.contains(v[1]) && v.contains(v[2]) && v.contains(v[3]) && v.contains(v[4])
        && v.contains(v[5]) && v.contains(v[6]) && v.contains(v[7]) && v.contains(v[8]) && v.contains(v[9])
        && v.contains(v[10]) && v.contains(v[11]));
}

/// The host's way out leads over management, and that of management over
/// forwarding, which knows the way back to the host; both forward packets.
pub proof fn law_host_has_a_way_out()
    ensures
        ({
            let v = plumbing();
            &&& v.contains(
                PlumbView::Do(
                    Space::Host,
                    StepView::Ip(seq!["route"@, "replace"@, "default"@, "via"@, "169.254.127.2"@]),
                ),
            )
            &&& v.contains(
                PlumbView::Do(
                    Space::Mgmt,
                    StepView::Ip(seq!["route"@, "replace"@, "default"@, "via"@, "169.254.127.5"@]),
                ),
            )
            &&& v.contains(
                PlumbView::Do(
                    Space::Fwd,
                    StepView::Ip(
                        seq![
                            "route"@,
                            "replace"@,
                            "169.254.127.0/30"@,
                            "via"@,
                            "169.254.127.6"@,
                            "dev"@,
                            "f0mgmt"@,
                        ],
                    ),
                ),
            )
            &&& v.contains(PlumbView::Forward(Space::Mgmt))
            &&& v.contains(PlumbView::Forward(Space::Fwd))
            &&& v.contains(PlumbView::Do(Space::Fwd, StepView::Sysctl("all"@, "ipv4"@, "rp_filter"@, "2"@)))
            &&& v.contains(PlumbView::Do(Space::Fwd, StepView::Sysctl("default"@, "ipv4"@, "rp_filter"@, "2"@)))
            &&& v.contains(PlumbView::Do(Space::Fwd, StepView::Sysctl("f0mgmt"@, "ipv4"@, "rp_filter"@, "2"@)))
        }),
{
    let v = plumbing();
    assert(v.contains(v[12]) && v.contains(v[13]) && v.contains(v[14]) && v.contains(v[15]) && v.contains(v[16])
        && v.contains(v[17]) && v.contains(v[18]) && v.contains(v[19]));
}

/// Every namespace gets its loopback device, forwards both kinds of packets and
/// learns no address by itself.
pub proof fn law_namespace_is_set_up(name: Seq<char>)
    ensures
        add_namespace(name).args == seq!["netns"@, "add"@, name],
        ({
            let v = namespace_commands(name);
            &&& v.len() == 3
            &&& v[0].args == seq!["netns"@, "exec"@, name, "ip"@, "link"@, "set"@, "lo"@, "up"@]
            &&& v[1].args == seq!["netns"@, "exec"@, name, "sh"@, "-c"@, FORWARD_SCRIPT@]
            &&& v[2].args == seq!["netns"@, "exec"@, name, "sh"@, "-c"@, LOCK_SCRIPT@]
        }),
{
}

/// The second of a pair of links ends up in the management namespace.
pub proof fn law_peer_goes_to_management(name: Seq<char>, peer: Seq<char>)
    ensures
        pair_args(name, peer)[0] == seq!["link"@, "add"@, name, "type"@, "veth"@, "peer"@, "name"@, peer],
        pair_args(name, peer)[1] == seq!["link"@, "set"@, peer, "netns"@, "/run/netns/mgmt"@],
{
}

} // verus!
