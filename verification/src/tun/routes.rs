//! The routes, name servers and addresses that lead all traffic to the virtual
//! interface, and how they are taken back.

use vstd::prelude::*;

use crate::ip;
use crate::json;
use crate::json::{Json, JsonView, Scalar};
use crate::net::PhysicalEndpoint;
use crate::text;
use crate::tun::probe;
use crate::tun::probe::ADAPTER;

verus! {

// ---- commands ----
/// A command of the system: a line for netsh, or a program with arguments.
#[derive(Debug)]
pub enum Command {
    Netsh(String),
    Run(String, Vec<String>),
}

pub enum CommandView {
    Netsh(Seq<char>),
    Run(Seq<char>, Seq<Seq<char>>),
}

impl View for Command {
    type V = CommandView;

    open spec fn view(&self) -> CommandView {
        match self {
            Command::Netsh(s) => CommandView::Netsh(s@),
            Command::Run(p, a) => CommandView::Run(p@, text::strings(a@)),
        }
    }
}

pub open spec fn commands(v: Seq<Command>) -> Seq<CommandView> {
    Seq::new(v.len(), |i: int| v[i]@)
}

proof fn lemma_commands_push(v: Seq<Command>, c: Command)
    ensures
        commands(v.push(c)) == commands(v).push(c@),
{
    assert(commands(v.push(c)) =~= commands(v).push(c@));
}

fn line(a: &str, b: &str, c: &str) -> (r: Command)
    ensures
        r@ == CommandView::Netsh(a@ + b@ + c@),
{
    let mut out = text::chars_of(a);
    text::append_str(&mut out, b);
    text::append_str(&mut out, c);
    Command::Netsh(text::string_of(out.as_slice()))
}

/// The line that gives an interface its name server back.
pub open spec fn dns_reset(name: Seq<char>) -> CommandView {
    CommandView::Netsh("interface ip set dns name=\""@ + name + "\" dhcp"@)
}

/// The line that sends the queries of an interface to the virtual one.
pub open spec fn dns_caught(name: Seq<char>) -> CommandView {
    CommandView::Netsh(
        "interface ip set dns name=\""@ + name + "\" static addr=198.18.0.2 register=none"@,
    )
}

pub open spec fn ipv6_state(name: Seq<char>, enabled: bool) -> CommandView {
    CommandView::Netsh(
        "interface ipv6 set interface name=\""@ + name + if enabled {
            "\" admin=enabled"@
        } else {
            "\" admin=disabled"@
        },
    )
}

fn reset_dns(name: &str) -> (r: Command)
    ensures
        r@ == dns_reset(name@),
{
    line("interface ip set dns name=\"", name, "\" dhcp")
}

fn catch_dns(name: &str) -> (r: Command)
    ensures
        r@ == dns_caught(name@),
{
    line("interface ip set dns name=\"", name, "\" static addr=198.18.0.2 register=none")
}

fn set_ipv6(name: &str, enabled: bool) -> (r: Command)
    ensures
        r@ == ipv6_state(name@, enabled),
{
    if enabled {
        line("interface ipv6 set interface name=\"", name, "\" admin=enabled")
    } else {
        line("interface ipv6 set interface name=\"", name, "\" admin=disabled")
    }
}

fn ip_string(o: [u8; 4]) -> (r: String)
    ensures
        r@ == ip::ipv4_text(o@),
{
    let c = ip::format_ipv4(o);
    text::string_of(c.as_slice())
}

/// The route to a host by a gateway.
pub open spec fn host_route(node: Seq<u8>, gateway: Seq<u8>, index: int) -> CommandView {
    CommandView::Run(
        "route"@,
        seq![
            "add"@,
            ip::ipv4_text(node),
            "mask"@,
            "255.255.255.255"@,
            ip::ipv4_text(gateway),
            "if"@,
            text::dec_int(index),
        ],
    )
}

/// The end of the route to a host.
pub open spec fn no_host_route(node: Seq<char>, gateway: Option<Seq<u8>>) -> CommandView {
    CommandView::Run(
        "route"@,
        match gateway {
            None => seq!["delete"@, node, "mask"@, "255.255.255.255"@],
            Some(g) => seq!["delete"@, node, "mask"@, "255.255.255.255"@, ip::ipv4_text(g)],
        },
    )
}

/// A route to one half of all addresses.
pub open spec fn half_route(half: Seq<char>) -> CommandView {
    CommandView::Run(
        "route"@,
        seq!["add"@, half, "mask"@, "128.0.0.0"@, ip::ipv4_text(probe::server_ip())],
    )
}

pub open spec fn no_half_route(half: Seq<char>) -> CommandView {
    CommandView::Run("route"@, seq!["delete"@, half, "mask"@, "128.0.0.0"@])
}

pub open spec fn flush_dns() -> CommandView {
    CommandView::Run("ipconfig"@, seq!["/flushdns"@])
}

fn add_host_route(node: [u8; 4], gateway: [u8; 4], index: i32) -> (r: Command)
    ensures
        r@ == host_route(node@, gateway@, index as int),
{
    let mut a: Vec<String> = Vec::new();
    a.push("add".to_owned());
    a.push(ip_string(node));
    a.push("mask".to_owned());
    a.push("255.255.255.255".to_owned());
    a.push(ip_string(gateway));
    a.push("if".to_owned());
    let n = text::format_int(index as i64);
    a.push(text::string_of(n.as_slice()));
    assert(text::strings(a@) =~= seq![
        "add"@,
        ip::ipv4_text(node@),
        "mask"@,
        "255.255.255.255"@,
        ip::ipv4_text(gateway@),
        "if"@,
        text::dec_int(index as int),
    ]);
    Command::Run("route".to_owned(), a)
}

fn delete_host_route(node: &str, gateway: Option<[u8; 4]>) -> (r: Command)
    ensures
        r@ == no_host_route(
            node@,
            match gateway {
                Some(g) => Some(g@),
                None => None,
            },
        ),
{
    let mut a: Vec<String> = Vec::new();
    a.push("delete".to_owned());
    a.push(node.to_owned());
    a.push("mask".to_owned());
    a.push("255.255.255.255".to_owned());
    assert(text::strings(a@) =~= seq!["delete"@, node@, "mask"@, "255.255.255.255"@]);
    if let Some(g) = gateway {
        a.push(ip_string(g));
        assert(text::strings(a@) =~= seq![
            "delete"@,
            node@,
            "mask"@,
            "255.255.255.255"@,
            ip::ipv4_text(g@),
        ]);
    }
    Command::Run("route".to_owned(), a)
}

fn add_half(half: &str) -> (r: Command)
    ensures
        r@ == half_route(half@),
{
    let mut a: Vec<String> = Vec::new();
    a.push("add".to_owned());
    a.push(half.to_owned());
    a.push("mask".to_owned());
    a.push("128.0.0.0".to_owned());
    a.push(ip_string(probe::tun_server()));
    assert(text::strings(a@) =~= seq![
        "add"@,
        half@,
        "mask"@,
        "128.0.0.0"@,
        ip::ipv4_text(probe::server_ip()),
    ]);
    Command::Run("route".to_owned(), a)
}

fn delete_half(half: &str) -> (r: Command)
    ensures
        r@ == no_half_route(half@),
{
    let mut a: Vec<String> = Vec::new();
    a.push("delete".to_owned());
    a.push(half.to_owned());
    a.push("mask".to_owned());
    a.push("128.0.0.0".to_owned());
    assert(text::strings(a@) =~= seq!["delete"@, half@, "mask"@, "128.0.0.0"@]);
    Command::Run("route".to_owned(), a)
}

fn flush() -> (r: Command)
    ensures
        r@ == flush_dns(),
{
    let mut a: Vec<String> = Vec::new();
    a.push("/flushdns".to_owned());
    assert(text::strings(a@) =~= seq!["/flushdns"@]);
    Command::Run("ipconfig".to_owned(), a)
}

/// The rule that lets connections to the program in.
pub open spec fn firewall_rule(exe: Seq<char>) -> CommandView {
    CommandView::Run(
        "netsh"@,
        seq![
            "advfirewall"@,
            "firewall"@,
            "add"@,
            "rule"@,
            "name=NanoClash"@,
            "dir=in"@,
            "action=allow"@,
            "program="@ + exe,
            "enable=yes"@,
        ],
    )
}

pub open spec fn no_firewall_rule() -> CommandView {
    CommandView::Run(
        "netsh"@,
        seq!["advfirewall"@, "firewall"@, "delete"@, "rule"@, "name=NanoClash"@],
    )
}

pub fn allow_firewall(exe: &str) -> (r: Command)
    ensures
        r@ == firewall_rule(exe@),
{
    let mut a: Vec<String> = Vec::new();
    a.push("advfirewall".to_owned());
    a.push("firewall".to_owned());
    a.push("add".to_owned());
    a.push("rule".to_owned());
    a.push("name=NanoClash".to_owned());
    a.push("dir=in".to_owned());
    a.push("action=allow".to_owned());
    let mut p = text::chars_of("program=");
    text::append_str(&mut p, exe);
    a.push(text::string_of(p.as_slice()));
    a.push("enable=yes".to_owned());
    assert(text::strings(a@) =~= seq![
        "advfirewall"@,
        "firewall"@,
        "add"@,
        "rule"@,
        "name=NanoClash"@,
        "dir=in"@,
        "action=allow"@,
        "program="@ + exe@,
        "enable=yes"@,
    ]);
    Command::Run("netsh".to_owned(), a)
}

pub fn remove_firewall() -> (r: Command)
    ensures
        r@ == no_firewall_rule(),
{
    let mut a: Vec<String> = Vec::new();
    a.push("advfirewall".to_owned());
    a.push("firewall".to_owned());
    a.push("delete".to_owned());
    a.push("rule".to_owned());
    a.push("name=NanoClash".to_owned());
    assert(text::strings(a@) =~= seq![
        "advfirewall"@,
        "firewall"@,
        "delete"@,
        "rule"@,
        "name=NanoClash"@,
    ]);
    Command::Run("netsh".to_owned(), a)
}

// ---- the address of the virtual interface ----
/// The ways to set the address, in the order in which they are tried.
pub open spec fn address_command(i: int) -> CommandView {
    CommandView::Netsh(
        if i == 0 {
            "interface ip set address name=\"NanoClash\" source=static addr=172.19.0.1 mask=255.255.255.252 gateway=none"@
        } else if i == 1 {
            "interface ipv4 set address name=\"NanoClash\" source=static address=172.19.0.1 mask=255.255.255.252 gateway=none"@
        } else {
            "interface ip set address name=\"NanoClash\" source=static addr=172.19.0.1 mask=255.255.255.252"@
        },
    )
}

fn set_address(i: u8) -> (r: Command)
    ensures
        r@ == address_command(i as int),
{
    if i == 0 {
        Command::Netsh(
            "interface ip set address name=\"NanoClash\" source=static addr=172.19.0.1 mask=255.255.255.252 gateway=none".to_owned(),
        )
    } else if i == 1 {
        Command::Netsh(
            "interface ipv4 set address name=\"NanoClash\" source=static address=172.19.0.1 mask=255.255.255.252 gateway=none".to_owned(),
        )
    } else {
        Command::Netsh(
            "interface ip set address name=\"NanoClash\" source=static addr=172.19.0.1 mask=255.255.255.252".to_owned(),
        )
    }
}

/// What sets up the interface once it has its address; that it fails does not
/// matter.
pub fn interface_settings() -> (r: Vec<Command>)
    ensures
        commands(r@) == seq![
            CommandView::Netsh(
                "interface ipv4 set subinterface \"NanoClash\" mtu=1400 store=active"@,
            ),
            CommandView::Netsh("interface ip set interface name=\"NanoClash\" metric=1"@),
        ],
{
    let mut r: Vec<Command> = Vec::new();
    r.push(
        Command::Netsh(
            "interface ipv4 set subinterface \"NanoClash\" mtu=1400 store=active".to_owned(),
        ),
    );
    r.push(
        Command::Netsh("interface ip set interface name=\"NanoClash\" metric=1".to_owned()),
    );
    assert(commands(r@) =~= seq![
        CommandView::Netsh("interface ipv4 set subinterface \"NanoClash\" mtu=1400 store=active"@),
        CommandView::Netsh("interface ip set interface name=\"NanoClash\" metric=1"@),
    ]);
    r
}

/// How often the address is tried to be set.
pub const ROUNDS: u32 = 30;

/// Where setting the address stands: a round begins, a way is tried, it is seen
/// whether the address is there after one that failed, after all of them, or
/// after all rounds.
#[derive(Clone, Copy, Debug, PartialEq, Eq, Structural)]
pub enum SetupPhase {
    Begin(u32),
    Run(u32, u8),
    AfterRun(u32, u8),
    AfterAll(u32),
    Pause(u32),
    Last,
    Done,
    Failed,
}

/// What happened: the address is there or not, a command worked or not, or the
/// pause is over.
#[derive(Clone, Copy, Debug, PartialEq, Eq, Structural)]
pub enum SetupEvent {
    Bindable(bool),
    Ran(bool),
    Woke,
}

/// What is done next. `Fail` is with the error of the last command that failed.
#[derive(Clone, Copy, Debug, PartialEq, Eq, Structural)]
pub enum SetupAction {
    Check,
    Run(u8),
    Sleep,
    Done,
    Fail,
}

pub open spec fn setup_action(p: SetupPhase) -> SetupAction {
    match p {
        SetupPhase::Begin(_) => SetupAction::Check,
        SetupPhase::Run(_, k) => SetupAction::Run(k),
        SetupPhase::AfterRun(_, _) => SetupAction::Check,
        SetupPhase::AfterAll(_) => SetupAction::Check,
        SetupPhase::Pause(_) => SetupAction::Sleep,
        SetupPhase::Last => SetupAction::Check,
        SetupPhase::Done => SetupAction::Done,
        SetupPhase::Failed => SetupAction::Fail,
    }
}

/// What comes next. An event that is not waited for changes nothing.
pub open spec fn setup_next(p: SetupPhase, e: SetupEvent) -> SetupPhase {
    match (p, e) {
        (SetupPhase::Begin(n), SetupEvent::Bindable(b)) => if b {
            SetupPhase::Done
        } else {
            SetupPhase::Run(n, 0)
        },
        (SetupPhase::Run(n, k), SetupEvent::Ran(ok)) => if ok {
            SetupPhase::Done
        } else {
            SetupPhase::AfterRun(n, k)
        },
        (SetupPhase::AfterRun(n, k), SetupEvent::Bindable(b)) => if b {
            SetupPhase::Done
        } else if k < 2 {
            SetupPhase::Run(n, (k + 1) as u8)
        } else {
            SetupPhase::AfterAll(n)
        },
        (SetupPhase::AfterAll(n), SetupEvent::Bindable(b)) => if b {
            SetupPhase::Done
        } else {
            SetupPhase::Pause(n)
        },
        (SetupPhase::Pause(n), SetupEvent::Woke) => if n + 1 < ROUNDS {
            SetupPhase::Begin((n + 1) as u32)
        } else {
            SetupPhase::Last
        },
        (SetupPhase::Last, SetupEvent::Bindable(b)) => if b {
            SetupPhase::Done
        } else {
            SetupPhase::Failed
        },
        _ => p,
    }
}

/// Sets the address of the interface, over and over.
#[derive(Debug)]
pub struct InterfaceSetup {
    pub phase: SetupPhase,
}

impl InterfaceSetup {
    pub fn new() -> (r: Self)
        ensures
            r.phase == SetupPhase::Begin(0),
    {
        InterfaceSetup { phase: SetupPhase::Begin(0) }
    }

    /// What is done next.
    pub fn action(&self) -> (r: SetupAction)
        ensures
            r == setup_action(self.phase),
    {
        match self.phase {
            SetupPhase::Begin(_) => SetupAction::Check,
            SetupPhase::Run(_, k) => SetupAction::Run(k),
            SetupPhase::AfterRun(_, _) => SetupAction::Check,
            SetupPhase::AfterAll(_) => SetupAction::Check,
            SetupPhase::Pause(_) => SetupAction::Sleep,
            SetupPhase::Last => SetupAction::Check,
            SetupPhase::Done => SetupAction::Done,
            SetupPhase::Failed => SetupAction::Fail,
        }
    }

    /// The command of a way to set the address.
    pub fn command(&self, k: u8) -> (r: Command)
        ensures
            r@ == address_command(k as int),
    {
        set_address(k)
    }

    /// Takes what happened.
    pub fn step(&mut self, e: SetupEvent)
        ensures
            final(self).phase == setup_next(old(self).phase, e),
    {
        self.phase = match (self.phase, e) {
            (SetupPhase::Begin(n), SetupEvent::Bindable(b)) => if b {
                SetupPhase::Done
            } else {
                SetupPhase::Run(n, 0)
            },
            (SetupPhase::Run(n, k), SetupEvent::Ran(ok)) => if ok {
                SetupPhase::Done
            } else {
                SetupPhase::AfterRun(n, k)
            },
            (SetupPhase::AfterRun(n, k), SetupEvent::Bindable(b)) => if b {
                SetupPhase::Done
            } else if k < 2 {
                SetupPhase::Run(n, k + 1)
            } else {
                SetupPhase::AfterAll(n)
            },
            (SetupPhase::AfterAll(n), SetupEvent::Bindable(b)) => if b {
                SetupPhase::Done
            } else {
                SetupPhase::Pause(n)
            },
            (SetupPhase::Pause(n), SetupEvent::Woke) => if n < ROUNDS - 1 {
                SetupPhase::Begin(n + 1)
            } else {
                SetupPhase::Last
            },
            (SetupPhase::Last, SetupEvent::Bindable(b)) => if b {
                SetupPhase::Done
            } else {
                SetupPhase::Failed
            },
            (p, _) => p,
        };
    }
}

// ---- routes ----
/// The routes that are in place: the interface that leads out, the node that is
/// reached by it, and the interface whose IPv6 was turned off.
#[derive(Debug)]
pub struct TunRoutes {
    pub physical: PhysicalEndpoint,
    pub node: Option<[u8; 4]>,
    pub ipv6_disabled: Option<String>,
}

pub open spec fn opt_octets(o: Option<[u8; 4]>) -> Option<Seq<u8>> {
    match o {
        Some(x) => Some(x@),
        None => None,
    }
}

/// What is kept for the case that the program does not get to take it all back.
pub open spec fn undo_text(ifname: Seq<char>, node: Option<Seq<u8>>, ipv6: bool) -> Seq<char> {
    "{\"ifname\":"@ + json::json_literal(ifname) + ",\"ipv6\":"@ + (if ipv6 {
        "true"@
    } else {
        "false"@
    }) + ",\"node\":"@ + (match node {
        Some(o) => json::json_literal(ip::ipv4_text(o)),
        None => "null"@,
    }) + "}"@
}

pub fn write_undo(ifname: &str, node: Option<[u8; 4]>, ipv6: bool) -> (r: String)
    ensures
        r@ == undo_text(ifname@, opt_octets(node), ipv6),
{
    let mut out = text::chars_of("{\"ifname\":");
    let a = json::json_string(ifname);
    text::append_str(&mut out, a.as_str());
    text::append_str(&mut out, ",\"ipv6\":");
    if ipv6 {
        text::append_str(&mut out, "true");
    } else {
        text::append_str(&mut out, "false");
    }
    text::append_str(&mut out, ",\"node\":");
    match node {
        Some(o) => {
            let s = ip_string(o);
            let b = json::json_string(s.as_str());
            text::append_str(&mut out, b.as_str());
        },
        None => {
            text::append_str(&mut out, "null");
        },
    }
    text::append_str(&mut out, "}");
    text::string_of(out.as_slice())
}

/// How the route to a node is set.
#[derive(Debug)]
pub struct RouteChange {
    /// Sets the route.
    pub add: Command,
    /// Where that fails, what is there is taken away, and it is set again.
    pub replace: Command,
    /// Takes the route to the former node away.
    pub former: Option<Command>,
}

impl TunRoutes {
    pub fn new(physical: PhysicalEndpoint) -> (r: Self)
        ensures
            r.physical == physical,
            r.node is None,
            r.ipv6_disabled is None,
    {
        TunRoutes { physical, node: None, ipv6_disabled: None }
    }

    /// How the route to a node is set, by the interface that leads out.
    pub fn plan_node_route(&self, node: [u8; 4]) -> (r: RouteChange)
        ensures
            r.add@ == host_route(
                node@,
                self.physical.gateway@,
                self.physical.interface_index as int,
            ),
            r.replace@ == no_host_route(ip::ipv4_text(node@), None),
            match self.node {
                Some(o) => if o@ == node@ {
                    r.former is None
                } else {
                    r.former is Some && r.former->0@ == no_host_route(
                        ip::ipv4_text(o@),
                        Some(self.physical.gateway@),
                    )
                },
                None => r.former is None,
            },
    {
        let add = add_host_route(node, self.physical.gateway, self.physical.interface_index);
        let s = ip_string(node);
        let replace = delete_host_route(s.as_str(), None);
        let former = match self.node {
            Some(o) => if ip::same_ipv4(o, node) {
                None
            } else {
                let t = ip_string(o);
                Some(delete_host_route(t.as_str(), Some(self.physical.gateway)))
            },
            None => None,
        };
        RouteChange { add, replace, former }
    }

    /// The route to a node is set; what is kept from now on is returned.
    pub fn set_node_host_route(&mut self, node: [u8; 4]) -> (r: String)
        ensures
            final(self).node == Some(node),
            final(self).physical == old(self).physical,
            final(self).ipv6_disabled == old(self).ipv6_disabled,
            r@ == undo_text(
                old(self).physical.name@,
                Some(node@),
                old(self).ipv6_disabled is Some,
            ),
    {
        self.node = Some(node);
        write_undo(self.physical.name.as_str(), Some(node), self.ipv6_disabled.is_some())
    }

    /// The line that turns IPv6 off.
    pub fn ipv6_command(&self) -> (r: Command)
        ensures
            r@ == ipv6_state(self.physical.name@, false),
    {
        set_ipv6(self.physical.name.as_str(), false)
    }

    /// IPv6 was turned off, if that worked; what is kept from now on is returned.
    pub fn disable_ipv6(&mut self, worked: bool) -> (r: String)
        ensures
            final(self).node == old(self).node,
            final(self).physical == old(self).physical,
            text::opt_view(final(self).ipv6_disabled) == (if worked {
                Some(old(self).physical.name@)
            } else {
                text::opt_view(old(self).ipv6_disabled)
            }),
            r@ == undo_text(
                old(self).physical.name@,
                opt_octets(old(self).node),
                worked || old(self).ipv6_disabled is Some,
            ),
    {
        if worked {
            self.ipv6_disabled = Some(self.physical.name.as_str().to_owned());
        }
        write_undo(self.physical.name.as_str(), self.node, self.ipv6_disabled.is_some())
    }

    /// Leads all addresses, in two halves, to the virtual interface.
    pub fn install_split_default(&self) -> (r: Vec<Command>)
        ensures
            commands(r@) == seq![half_route("0.0.0.0"@), half_route("128.0.0.0"@)],
    {
        let mut r: Vec<Command> = Vec::new();
        r.push(add_half("0.0.0.0"));
        r.push(add_half("128.0.0.0"));
        assert(commands(r@) =~= seq![half_route("0.0.0.0"@), half_route("128.0.0.0"@)]);
        r
    }

    /// Leads all queries to the virtual interface. What fails but for the last
    /// matters.
    pub fn configure_dns_hijack(&self) -> (r: Vec<Command>)
        ensures
            commands(r@) == seq![
                dns_caught("NanoClash"@),
                dns_caught(self.physical.name@),
                flush_dns(),
            ],
    {
        let mut r: Vec<Command> = Vec::new();
        r.push(catch_dns("NanoClash"));
        r.push(catch_dns(self.physical.name.as_str()));
        r.push(flush());
        assert(commands(r@) =~= seq![
            dns_caught("NanoClash"@),
            dns_caught(self.physical.name@),
            flush_dns(),
        ]);
        r
    }

    /// Takes everything back. That a command fails does not matter.
    pub fn uninstall(&mut self) -> (r: Vec<Command>)
        ensures
            commands(r@) == taken_back(
                old(self).physical.name@,
                old(self).physical.gateway@,
                opt_octets(old(self).node),
                text::opt_view(old(self).ipv6_disabled),
            ),
            final(self).node is None,
            final(self).ipv6_disabled is None,
            final(self).physical == old(self).physical,
    {
        let mut r: Vec<Command> = Vec::new();
        r.push(delete_half("0.0.0.0"));
        r.push(delete_half("128.0.0.0"));
        assert(commands(r@) =~= seq![no_half_route("0.0.0.0"@), no_half_route("128.0.0.0"@)]);
        if let Some(o) = self.node {
            let s = ip_string(o);
            let c = delete_host_route(s.as_str(), Some(self.physical.gateway));
            proof {
                lemma_commands_push(r@, c);
            }
            r.push(c);
        }
        self.node = None;
        let ghost before = commands(r@);
        let c = reset_dns("NanoClash");
        proof {
            lemma_commands_push(r@, c);
        }
        r.push(c);
        let d = reset_dns(self.physical.name.as_str());
        proof {
            lemma_commands_push(r@, d);
        }
        r.push(d);
        if let Some(n) = &self.ipv6_disabled {
            let c = set_ipv6(n.as_str(), true);
            proof {
                lemma_commands_push(r@, c);
            }
            r.push(c);
        }
        self.ipv6_disabled = None;
        proof {
            let v6 = text::opt_view(old(self).ipv6_disabled);
            assert(commands(r@) =~= taken_back(
                old(self).physical.name@,
                old(self).physical.gateway@,
                opt_octets(old(self).node),
                v6,
            ));
        }
        r
    }
}

/// The commands that take everything back.
pub open spec fn taken_back(
    name: Seq<char>,
    gateway: Seq<u8>,
    node: Option<Seq<u8>>,
    ipv6: Option<Seq<char>>,
) -> Seq<CommandView> {
    seq![no_half_route("0.0.0.0"@), no_half_route("128.0.0.0"@)] + (match node {
        Some(o) => seq![no_host_route(ip::ipv4_text(o), Some(gateway))],
        None => Seq::empty(),
    }) + seq![dns_reset("NanoClash"@), dns_reset(name)] + (match ipv6 {
        Some(n) => seq![ipv6_state(n, true)],
        None => Seq::empty(),
    })
}

// ---- after a crash ----
/// What a kept document takes back.
pub open spec fn document_commands(v: JsonView) -> Seq<CommandView> {
    (match json::text_at(v, "ifname"@) {
        Some(n) => seq![dns_reset(n)] + if json::bool_at(v, "ipv6"@) == Some(true) {
            seq![ipv6_state(n, true)]
        } else {
            Seq::empty()
        },
        None => Seq::empty(),
    }) + (match json::text_at(v, "node"@) {
        Some(o) => seq![no_host_route(o, None)],
        None => Seq::empty(),
    })
}

pub fn commands_of_document(v: &Json) -> (r: Vec<Command>)
    ensures
        commands(r@) == document_commands(v@),
{
    let mut r: Vec<Command> = Vec::new();
    assert(commands(r@) =~= Seq::<CommandView>::empty());
    if let Some(n) = json::jstr(v, "ifname") {
        r.push(reset_dns(n.as_str()));
        assert(commands(r@) =~= seq![dns_reset(n@)]);
        let on: bool = match json::jbool(v, "ipv6") {
            Some(b) => b,
            None => false,
        };
        if on {
            r.push(set_ipv6(n.as_str(), true));
            assert(commands(r@) =~= seq![dns_reset(n@)] + seq![ipv6_state(n@, true)]);
        }
    }
    let ghost first = commands(r@);
    if let Some(o) = json::jstr(v, "node") {
        let c = delete_host_route(o.as_str(), None);
        proof {
            lemma_commands_push(r@, c);
        }
        r.push(c);
        assert(commands(r@) =~= first + seq![no_host_route(o@, None)]);
    }
    assert(commands(r@) =~= document_commands(v@));
    r
}

pub open spec fn always_taken_back() -> Seq<CommandView> {
    seq![
        no_half_route("0.0.0.0"@),
        no_half_route("128.0.0.0"@),
        dns_reset("NanoClash"@),
    ]
}

/// What is taken back of what was kept.
pub open spec fn kept_taken_back(ifname: Seq<char>, node: Option<Seq<u8>>, ipv6: bool) -> Seq<
    CommandView,
> {
    seq![dns_reset(ifname)] + (if ipv6 {
        seq![ipv6_state(ifname, true)]
    } else {
        Seq::empty()
    }) + (match node {
        Some(o) => seq![no_host_route(ip::ipv4_text(o), None)],
        None => Seq::empty(),
    })
}

/// The entries of what is kept.
spec fn undo_members(ifname: Seq<char>, node: Option<Seq<u8>>, ipv6: bool) -> Seq<
    (Seq<char>, Scalar),
> {
    seq![
        ("ifname"@, Scalar::Text(ifname)),
        ("ipv6"@, Scalar::Bool(ipv6)),
        (
            "node"@,
            match node {
                Some(o) => Scalar::Text(ip::ipv4_text(o)),
                None => Scalar::Null,
            },
        ),
    ]
}

proof fn lemma_undo_is_object(ifname: Seq<char>, node: Option<Seq<u8>>, ipv6: bool)
    ensures
        undo_text(ifname, node, ipv6) == json::object_text(undo_members(ifname, node, ipv6)),
        json::plain_keys(undo_members(ifname, node, ipv6)),
{
    let m = undo_members(ifname, node, ipv6);
    reveal_strlit("ifname");
    reveal_strlit("ipv6");
    reveal_strlit("node");
    reveal_strlit("{");
    reveal_strlit("}");
    reveal_strlit(",");
    reveal_strlit("\"");
    reveal_strlit("\":");
    reveal_strlit("{\"ifname\":");
    reveal_strlit(",\"ipv6\":");
    reveal_strlit(",\"node\":");
    reveal_with_fuel(json::members_text, 4);
    assert(m.drop_last() =~= seq![m[0], m[1]]);
    assert(m.drop_last().drop_last() =~= seq![m[0]]);
    assert("{"@ + json::member_text(m[0]) =~= "{\"ifname\":"@ + json::json_literal(ifname));
    assert(","@ + json::member_text(m[1]) =~= ",\"ipv6\":"@ + json::scalar_text(m[1].1));
    assert(","@ + json::member_text(m[2]) =~= ",\"node\":"@ + json::scalar_text(m[2].1));
    assert(undo_text(ifname, node, ipv6) =~= json::object_text(m));
    assert("ifname"@.len() != "ipv6"@.len());
    assert("ifname"@.len() != "node"@.len());
    assert("ipv6"@[0] != "node"@[0]);
}

/// What is done at the start of the program, with what was kept if there is
/// something: what `write_undo` kept is taken back. That a command fails does not
/// matter. The name servers of interfaces and the firewall follow.
pub fn recover(kept: Option<&str>) -> (r: Vec<Command>)
    ensures
        commands(r@) == (match kept {
            Some(t) => match json::json_value(t@) {
                Some(v) => document_commands(v),
                None => Seq::empty(),
            },
            None => Seq::empty(),
        }) + always_taken_back(),
        forall|ifname: Seq<char>, node: Option<Seq<u8>>, ipv6: bool|
            kept is Some && kept->0@ == #[trigger] undo_text(ifname, node, ipv6) ==> commands(r@)
                == kept_taken_back(ifname, node, ipv6) + always_taken_back(),
{
    let mut r: Vec<Command> = Vec::new();
    assert(commands(r@) =~= Seq::<CommandView>::empty());
    if let Some(t) = kept {
        let parsed = json::parse_json(t);
        proof {
            assert forall|ifname: Seq<char>, node: Option<Seq<u8>>, ipv6: bool|
                t@ == #[trigger] undo_text(ifname, node, ipv6) implies parsed is Some
                && document_commands(parsed->0@) == kept_taken_back(ifname, node, ipv6) by {
                let m = undo_members(ifname, node, ipv6);
                lemma_undo_is_object(ifname, node, ipv6);
                assert(json::is_object(parsed->0@, m));
                assert(m[0].0 == "ifname"@ && m[1].0 == "ipv6"@ && m[2].0 == "node"@);
                assert(document_commands(parsed->0@) =~= kept_taken_back(ifname, node, ipv6));
            }
        }
        if let Some(v) = parsed {
            r = commands_of_document(&v);
        }
    }
    let ghost first = commands(r@);
    r.push(delete_half("0.0.0.0"));
    r.push(delete_half("128.0.0.0"));
    r.push(reset_dns("NanoClash"));
    assert(commands(r@) =~= first + always_taken_back());
    r
}

/// What is done last: queries are asked anew, and the firewall rule goes.
pub fn recover_last() -> (r: Vec<Command>)
    ensures
        commands(r@) == seq![flush_dns(), no_firewall_rule()],
{
    let mut r: Vec<Command> = Vec::new();
    r.push(flush());
    r.push(remove_firewall());
    assert(commands(r@) =~= seq![flush_dns(), no_firewall_rule()]);
    r
}

// ---- interfaces that still ask the virtual one ----
/// The interface that a line of a report names.
pub open spec fn interface_name(t: Seq<char>) -> Option<Seq<char>> {
    match text::after_prefix(t, "Configuration for interface "@) {
        Some(n) => Some(text::without_any(n, "\"'"@)),
        None => match text::after_prefix(t, "接口 "@) {
            Some(n) => if text::ends(n, " 的配置"@) {
                Some(text::without_any(n.take(n.len() - " 的配置"@.len()), "\"'"@))
            } else {
                None
            },
            None => None,
        },
    }
}

pub fn parse_netsh_if_name(t: &[char]) -> (r: Option<Vec<char>>)
    ensures
        match interface_name(t@) {
            Some(n) => r is Some && r->0@ == n,
            None => r is None,
        },
{
    if let Some(n) = text::strip_prefix(t, "Configuration for interface ") {
        let mut out: Vec<char> = Vec::new();
        text::append(&mut out, text::trim_any(n, "\"'"));
        assert(out@ =~= text::without_any(n@, "\"'"@));
        return Some(out);
    }
    if let Some(n) = text::strip_prefix(t, "接口 ") {
        if text::ends_with(n, " 的配置") {
            proof {
                reveal_strlit(" 的配置");
            }
            let k: usize = n.len() - 4;
            let m = &n[0..k];
            assert(m@ =~= n@.take(n@.len() - " 的配置"@.len()));
            let mut out: Vec<char> = Vec::new();
            text::append(&mut out, text::trim_any(m, "\"'"));
            assert(out@ =~= text::without_any(m@, "\"'"@));
            return Some(out);
        }
    }
    None
}

/// The interfaces that a report says ask an address at which queries are caught:
/// the name of the last interface so far, and the names.
pub open spec fn reported_names(lines: Seq<Seq<char>>) -> (Option<Seq<char>>, Seq<Seq<char>>)
    decreases lines.len(),
{
    if lines.len() == 0 {
        (None, Seq::empty())
    } else {
        let (current, names) = reported_names(lines.drop_last());
        let t = text::trimmed(lines.last());
        match interface_name(t) {
            Some(n) => (Some(n), names),
            None => (
                current,
                if text::has(t, "198.18."@) && current is Some && !names.contains(current->0) {
                    names.push(current->0)
                } else {
                    names
                },
            ),
        }
    }
}

pub open spec fn char_texts(v: Seq<Vec<char>>) -> Seq<Seq<char>> {
    Seq::new(v.len(), |i: int| v[i]@)
}

fn holds_name(v: &Vec<Vec<char>>, n: &[char]) -> (r: bool)
    ensures
        r == char_texts(v@).contains(n@),
{
    let ghost t = char_texts(v@);
    let mut i: usize = 0;
    while i < v.len()
        invariant
            i <= v@.len(),
            t == char_texts(v@),
            forall|j: int| 0 <= j < i ==> (#[trigger] t[j]) != n@,
        decreases v@.len() - i,
    {
        if text::same(v[i].as_slice(), n) {
            assert(t[i as int] == n@);
            return true;
        }
        i += 1;
    }
    false
}

fn copy_chars(s: &[char]) -> (r: Vec<char>)
    ensures
        r@ == s@,
{
    let mut out: Vec<char> = Vec::new();
    text::append(&mut out, s);
    assert(out@ =~= s@);
    out
}

/// The names of interfaces of a report that ask an address at which queries are
/// caught, each once.
pub fn parse_fake_dns_names(report: &str) -> (r: Vec<Vec<char>>)
    ensures
        char_texts(r@) == reported_names(text::lines_of(report@)).1,
{
    let c = text::chars_of(report);
    let lines = text::lines(c.as_slice());
    let ghost ls = text::texts(lines@);
    let mut current: Option<Vec<char>> = None;
    let mut names: Vec<Vec<char>> = Vec::new();
    let mut i: usize = 0;
    assert(ls.take(0).len() == 0);
    assert(char_texts(names@) =~= Seq::<Seq<char>>::empty());
    while i < lines.len()
        invariant
            i <= lines@.len(),
            ls == text::texts(lines@),
            ({
                let (cur, ns) = reported_names(ls.take(i as int));
                &&& char_texts(names@) == ns
                &&& match current {
                    Some(x) => cur == Some(x@),
                    None => cur is None,
                }
            }),
        decreases lines@.len() - i,
    {
        let ghost t1 = ls.take(i + 1);
        assert(t1.drop_last() =~= ls.take(i as int));
        assert(t1.last() == lines@[i as int]@);
        let t = text::trim(lines[i]);
        match parse_netsh_if_name(t) {
            Some(n) => {
                current = Some(n);
            },
            None => {
                if text::contains(t, "198.18.") {
                    if let Some(n) = &current {
                        if !holds_name(&names, n.as_slice()) {
                            let ghost before = char_texts(names@);
                            names.push(copy_chars(n.as_slice()));
                            assert(char_texts(names@) =~= before.push(n@));
                        }
                    }
                }
            },
        }
        i += 1;
    }
    assert(ls.take(i as int) =~= ls);
    names
}

/// Whether a text comes before another: by the first character that differs, and
/// what is shorter first.
pub open spec fn before(a: Seq<char>, b: Seq<char>) -> bool
    decreases a.len(),
{
    if b.len() == 0 {
        false
    } else if a.len() == 0 {
        true
    } else if a[0] != b[0] {
        a[0] < b[0]
    } else {
        before(a.skip(1), b.skip(1))
    }
}

fn is_before(a: &[char], b: &[char]) -> (r: bool)
    ensures
        r == before(a@, b@),
{
    let mut i: usize = 0;
    assert(a@.skip(0) =~= a@);
    assert(b@.skip(0) =~= b@);
    loop
        invariant
            i <= a@.len(),
            i <= b@.len(),
            before(a@, b@) == before(a@.skip(i as int), b@.skip(i as int)),
        decreases a@.len() - i,
    {
        if i == b.len() {
            return false;
        }
        if i == a.len() {
            return true;
        }
        if a[i] != b[i] {
            return a[i] < b[i];
        }
        assert(a@.skip(i as int).skip(1) =~= a@.skip(i + 1));
        assert(b@.skip(i as int).skip(1) =~= b@.skip(i + 1));
        i += 1;
    }
}

/// Whether texts stand in order, each once.
pub open spec fn ordered(s: Seq<Seq<char>>) -> bool {
    forall|i: int, j: int| 0 <= i < j < s.len() ==> before(#[trigger] s[i], #[trigger] s[j])
}

/// Of two texts that differ, one comes before the other, and not the other before
/// it.
pub proof fn lemma_before_total(a: Seq<char>, b: Seq<char>)
    ensures
        a == b ==> !before(a, b),
        a != b ==> before(a, b) != before(b, a),
    decreases a.len(),
{
    if a.len() > 0 && b.len() > 0 && a[0] == b[0] {
        lemma_before_total(a.skip(1), b.skip(1));
        if a.skip(1) == b.skip(1) {
            assert(a =~= seq![a[0]] + a.skip(1));
            assert(b =~= seq![b[0]] + b.skip(1));
        }
    } else if a.len() == 0 && b.len() == 0 {
        assert(a =~= b);
    }
}

pub proof fn lemma_before_transitive(a: Seq<char>, b: Seq<char>, c: Seq<char>)
    requires
        before(a, b),
        before(b, c),
    ensures
        before(a, c),
    decreases a.len(),
{
    if a.len() > 0 && b.len() > 0 && c.len() > 0 && a[0] == b[0] && b[0] == c[0] {
        lemma_before_transitive(a.skip(1), b.skip(1), c.skip(1));
    }
}

/// Adds a name at its place, unless it is there.
fn insert_name(v: &mut Vec<Vec<char>>, n: Vec<char>)
    requires
        ordered(char_texts(old(v)@)),
    ensures
        ordered(char_texts(final(v)@)),
        forall|x: Seq<char>|
            #[trigger] char_texts(final(v)@).contains(x) == (char_texts(old(v)@).contains(x) || x
                == n@),
{
    let ghost t = char_texts(v@);
    let mut i: usize = 0;
    while i < v.len() && is_before(v[i].as_slice(), n.as_slice())
        invariant
            i <= v@.len(),
            t == char_texts(v@),
            forall|j: int| 0 <= j < i ==> before(#[trigger] t[j], n@),
        decreases v@.len() - i,
    {
        i += 1;
    }
    if i < v.len() && text::same(v[i].as_slice(), n.as_slice()) {
        assert(t[i as int] == n@);
        return ;
    }
    let ghost at = i as int;
    let ghost name = n@;
    v.insert(i, n);
    proof {
        let u = char_texts(v@);
        assert(u =~= t.insert(at, name));
        if at < t.len() {
            lemma_before_total(t[at], name);
        }
        assert forall|a: int, b: int| 0 <= a < b < u.len() implies before(
            #[trigger] u[a],
            #[trigger] u[b],
        ) by {
            if a == at {
                assert(u[b] == t[b - 1]);
                if b - 1 > at {
                    assert(before(t[at], t[b - 1]));
                    lemma_before_transitive(name, t[at], t[b - 1]);
                }
            } else if b == at {
                assert(u[a] == t[a]);
            } else {
                let x = if a < at {
                    a
                } else {
                    a - 1
                };
                let y = if b < at {
                    b
                } else {
                    b - 1
                };
                assert(u[a] == t[x] && u[b] == t[y]);
            }
        }
        assert forall|x: Seq<char>| u.contains(x) == (t.contains(x) || x == name) by {
            if t.contains(x) {
                let k = choose|k: int| 0 <= k < t.len() && t[k] == x;
                if k < at {
                    assert(u[k] == x);
                } else {
                    assert(u[k + 1] == x);
                }
            }
            if x == name {
                assert(u[at] == x);
            }
            if u.contains(x) {
                let k = choose|k: int| 0 <= k < u.len() && u[k] == x;
                if k < at {
                    assert(t[k] == x);
                } else if k > at {
                    assert(t[k - 1] == x);
                }
            }
        }
    }
}

/// The names of two lists in order, each once.
pub fn merge_names(a: &Vec<String>, b: &Vec<Vec<char>>) -> (r: Vec<Vec<char>>)
    ensures
        ordered(char_texts(r@)),
        forall|x: Seq<char>|
            #[trigger] char_texts(r@).contains(x) == (text::strings(a@).contains(x) || char_texts(
                b@,
            ).contains(x)),
{
    let mut r: Vec<Vec<char>> = Vec::new();
    let ghost sa = text::strings(a@);
    let ghost sb = char_texts(b@);
    let mut i: usize = 0;
    assert(char_texts(r@).len() == 0);
    while i < a.len()
        invariant
            i <= a@.len(),
            sa == text::strings(a@),
            ordered(char_texts(r@)),
            forall|x: Seq<char>|
                #[trigger] char_texts(r@).contains(x) == sa.take(i as int).contains(x),
        decreases a@.len() - i,
    {
        let n = text::chars_of(a[i].as_str());
        let ghost t = sa.take(i as int);
        let ghost name = n@;
        insert_name(&mut r, n);
        proof {
            let u = sa.take(i + 1);
            assert(u =~= t.push(name));
            assert forall|x: Seq<char>| #[trigger] u.contains(x) == (t.contains(x) || x == name) by {
                lemma_push_contains(t, name, x);
            }
        }
        i += 1;
    }
    assert(sa.take(i as int) =~= sa);
    let mut k: usize = 0;
    assert(sb.take(0).len() == 0);
    while k < b.len()
        invariant
            k <= b@.len(),
            sb == char_texts(b@),
            ordered(char_texts(r@)),
            forall|x: Seq<char>|
                #[trigger] char_texts(r@).contains(x) == (sa.contains(x) || sb.take(
                    k as int,
                ).contains(x)),
        decreases b@.len() - k,
    {
        let ghost t = sb.take(k as int);
        let n = copy_chars(b[k].as_slice());
        let ghost name = n@;
        insert_name(&mut r, n);
        proof {
            let u = sb.take(k + 1);
            assert(u =~= t.push(name));
            assert forall|x: Seq<char>| #[trigger] u.contains(x) == (t.contains(x) || x == name) by {
                lemma_push_contains(t, name, x);
            }
        }
        k += 1;
    }
    assert(sb.take(k as int) =~= sb);
    r
}

proof fn lemma_push_contains(t: Seq<Seq<char>>, name: Seq<char>, x: Seq<char>)
    ensures
        t.push(name).contains(x) == (t.contains(x) || x == name),
{
    let u = t.push(name);
    if t.contains(x) {
        let k = choose|k: int| 0 <= k < t.len() && t[k] == x;
        assert(u[k] == x);
    }
    if x == name {
        assert(u[t.len() as int] == x);
    }
    if u.contains(x) {
        let k = choose|k: int| 0 <= k < u.len() && u[k] == x;
        if k < t.len() {
            assert(t[k] == x);
        }
    }
}

/// The lines that give interfaces their name servers back, but for the virtual one.
pub open spec fn resets(names: Seq<Seq<char>>) -> Seq<CommandView>
    decreases names.len(),
{
    if names.len() == 0 {
        Seq::empty()
    } else {
        let rest = resets(names.drop_last());
        if text::same_nocase(names.last(), ADAPTER@) {
            rest
        } else {
            rest.push(dns_reset(names.last()))
        }
    }
}

/// Gives interfaces their name servers back, but for the virtual one.
pub fn restore_fake_dns_nics(names: &Vec<Vec<char>>) -> (r: Vec<Command>)
    ensures
        commands(r@) == resets(char_texts(names@)),
{
    let ghost ns = char_texts(names@);
    let mut r: Vec<Command> = Vec::new();
    let mut i: usize = 0;
    assert(ns.take(0).len() == 0);
    assert(commands(r@) =~= Seq::<CommandView>::empty());
    while i < names.len()
        invariant
            i <= names@.len(),
            ns == char_texts(names@),
            commands(r@) == resets(ns.take(i as int)),
        decreases names@.len() - i,
    {
        let ghost t = ns.take(i + 1);
        assert(t.drop_last() =~= ns.take(i as int));
        assert(t.last() == names@[i as int]@);
        if !text::is_nocase(names[i].as_slice(), ADAPTER) {
            let s = text::string_of(names[i].as_slice());
            let c = reset_dns(s.as_str());
            proof {
                lemma_commands_push(r@, c);
            }
            r.push(c);
        }
        i += 1;
    }
    assert(ns.take(i as int) =~= ns);
    r
}

// ---- laws ----
/// Setting the address ends: with every event that is waited for, less is left to
/// be done.
pub open spec fn setup_left(p: SetupPhase) -> int {
    match p {
        SetupPhase::Begin(n) => (ROUNDS - n) * 10 + 9,
        SetupPhase::Run(n, k) => (ROUNDS - n) * 10 + 8 - 2 * k,
        SetupPhase::AfterRun(n, k) => (ROUNDS - n) * 10 + 7 - 2 * k,
        SetupPhase::AfterAll(n) => (ROUNDS - n) * 10 + 2,
        SetupPhase::Pause(n) => (ROUNDS - n) * 10 + 1,
        SetupPhase::Last => 1,
        SetupPhase::Done => 0,
        SetupPhase::Failed => 0,
    }
}

pub open spec fn setup_valid(p: SetupPhase) -> bool {
    match p {
        SetupPhase::Begin(n) => n < ROUNDS,
        SetupPhase::Run(n, k) => n < ROUNDS && k <= 2,
        SetupPhase::AfterRun(n, k) => n < ROUNDS && k <= 2,
        SetupPhase::AfterAll(n) => n < ROUNDS,
        SetupPhase::Pause(n) => n < ROUNDS,
        _ => true,
    }
}

/// Whether an event is the one that is waited for.
pub open spec fn awaited(p: SetupPhase, e: SetupEvent) -> bool {
    match setup_action(p) {
        SetupAction::Check => e is Bindable,
        SetupAction::Run(_) => e is Ran,
        SetupAction::Sleep => e is Woke,
        _ => false,
    }
}

/// Setting the address ends, whatever happens: each event that is waited for
/// brings it nearer to its end.
pub proof fn law_setup_ends(p: SetupPhase, e: SetupEvent)
    requires
        setup_valid(p),
        awaited(p, e),
    ensures
        setup_valid(setup_next(p, e)),
        0 <= setup_left(setup_next(p, e)) < setup_left(p),
{
}

/// What takes everything back names every interface, route and name server that
/// was set: the two halves, the node, the two name servers and IPv6.
pub proof fn law_everything_is_taken_back(
    name: Seq<char>,
    gateway: Seq<u8>,
    node: Seq<u8>,
    ipv6: Seq<char>,
)
    ensures
        ({
            let t = taken_back(name, gateway, Some(node), Some(ipv6));
            &&& t.contains(no_half_route("0.0.0.0"@))
            &&& t.contains(no_half_route("128.0.0.0"@))
            &&& t.contains(no_host_route(ip::ipv4_text(node), Some(gateway)))
            &&& t.contains(dns_reset("NanoClash"@))
            &&& t.contains(dns_reset(name))
            &&& t.contains(ipv6_state(ipv6, true))
        }),
{
    let t = taken_back(name, gateway, Some(node), Some(ipv6));
    assert(t.len() == 6);
    assert(t[0] == no_half_route("0.0.0.0"@));
    assert(t[1] == no_half_route("128.0.0.0"@));
    assert(t[2] == no_host_route(ip::ipv4_text(node), Some(gateway)));
    assert(t[3] == dns_reset("NanoClash"@));
    assert(t[4] == dns_reset(name));
    assert(t[5] == ipv6_state(ipv6, true));
}

/// The commands on routes: the arguments that add the route to a host or to one half of all
/// addresses, and those that take it back, which name the same destination and mask.
pub proof fn law_route_commands(a: u8, b: u8, c: u8, d: u8, gateway: Seq<u8>, half: Seq<char>, n: nat)
    ensures
        ({
            let dot = seq!['.'];
            let node = text::dec(a as nat) + dot + text::dec(b as nat) + dot + text::dec(c as nat)
                + dot + text::dec(d as nat);
            let o = seq![a, b, c, d];
            &&& host_route(o, gateway, n as int) is Run
            &&& host_route(o, gateway, n as int)->Run_0 == "route"@
            &&& host_route(o, gateway, n as int)->Run_1 == seq![
                "add"@,
                node,
                "mask"@,
                "255.255.255.255"@,
                ip::ipv4_text(gateway),
                "if"@,
                text::dec(n),
            ]
            &&& no_host_route(node, Some(gateway)) == CommandView::Run(
                "route"@,
                seq!["delete"@, node, "mask"@, "255.255.255.255"@, ip::ipv4_text(gateway)],
            )
            &&& no_host_route(node, None) == CommandView::Run(
                "route"@,
                seq!["delete"@, node, "mask"@, "255.255.255.255"@],
            )
        }),
        half_route(half) == CommandView::Run(
            "route"@,
            seq!["add"@, half, "mask"@, "128.0.0.0"@, "172.19.0.1"@],
        ),
        no_half_route(half) == CommandView::Run(
            "route"@,
            seq!["delete"@, half, "mask"@, "128.0.0.0"@],
        ),
{
    let o = seq![a, b, c, d];
    assert(o[0] == a && o[1] == b && o[2] == c && o[3] == d);
    reveal_strlit("172.19.0.1");
    let s = seq![172u8, 19u8, 0u8, 1u8];
    assert(s[0] == 172 && s[1] == 19 && s[2] == 0 && s[3] == 1);
    reveal_with_fuel(text::dec, 4);
    assert(ip::ipv4_text(s) =~= "172.19.0.1"@);
    let x = host_route(o, gateway, n as int)->Run_1;
    assert(x =~= seq![
        "add"@,
        ip::ipv4_text(o),
        "mask"@,
        "255.255.255.255"@,
        ip::ipv4_text(gateway),
        "if"@,
        text::dec(n),
    ]);
}

/// The commands on interfaces: what sends the queries of an interface to the virtual one,
/// what gives its name server back, and what turns IPv6 on and off there.
pub proof fn law_interface_commands(name: Seq<char>)
    ensures
        dns_caught(name) == CommandView::Netsh(
            "interface ip set dns name=\""@ + name
                + "\" static addr=198.18.0.2 register=none"@,
        ),
        dns_reset(name) == CommandView::Netsh(
            "interface ip set dns name=\""@ + name + "\" dhcp"@,
        ),
        ipv6_state(name, true) == CommandView::Netsh(
            "interface ipv6 set interface name=\""@ + name + "\" admin=enabled"@,
        ),
        ipv6_state(name, false) == CommandView::Netsh(
            "interface ipv6 set interface name=\""@ + name + "\" admin=disabled"@,
        ),
        flush_dns() == CommandView::Run("ipconfig"@, seq!["/flushdns"@]),
{
}

/// The rule of the firewall is taken away by the name under which it is added, and lets
/// the program itself in.
pub proof fn law_firewall_rule(exe: Seq<char>)
    ensures
        firewall_rule(exe) is Run && no_firewall_rule() is Run,
        firewall_rule(exe)->Run_0 == "netsh"@ && no_firewall_rule()->Run_0 == "netsh"@,
        firewall_rule(exe)->Run_1[2] == "add"@ && no_firewall_rule()->Run_1[2] == "delete"@,
        firewall_rule(exe)->Run_1.contains("name=NanoClash"@),
        no_firewall_rule()->Run_1.contains("name=NanoClash"@),
        firewall_rule(exe)->Run_1.contains("dir=in"@),
        firewall_rule(exe)->Run_1.contains("action=allow"@),
        firewall_rule(exe)->Run_1.contains("enable=yes"@),
        firewall_rule(exe)->Run_1.contains("program="@ + exe),
{
    let a = firewall_rule(exe)->Run_1;
    let b = no_firewall_rule()->Run_1;
    assert(a[4] == "name=NanoClash"@ && a[5] == "dir=in"@ && a[6] == "action=allow"@);
    assert(a[7] == "program="@ + exe && a[8] == "enable=yes"@);
    assert(b[4] == "name=NanoClash"@);
}

/// What an upset run left behind is taken back: the name server of the interface, IPv6
/// where it was off, and the route to the node where there was one.
pub proof fn law_kept_is_taken_back(name: Seq<char>, node: Option<Seq<u8>>, ipv6: bool)
    ensures
        ({
            let t = kept_taken_back(name, node, ipv6);
            &&& t.contains(dns_reset(name))
            &&& t.contains(ipv6_state(name, true)) <==> ipv6
            &&& (node is Some ==> t.contains(no_host_route(ip::ipv4_text(node->0), None)))
            &&& t.len() == 1 + (if ipv6 {
                1int
            } else {
                0
            }) + (if node is Some {
                1int
            } else {
                0
            })
        }),
        always_taken_back() == seq![
            no_half_route("0.0.0.0"@),
            no_half_route("128.0.0.0"@),
            dns_reset("NanoClash"@),
        ],
{
    let t = kept_taken_back(name, node, ipv6);
    assert(t[0] == dns_reset(name));
    reveal_strlit("interface ip set dns name=\"");
    reveal_strlit("interface ipv6 set interface name=\"");
    let x = "interface ip set dns name=\""@ + name + "\" dhcp"@;
    let y = "interface ipv6 set interface name=\""@ + name + "\" admin=enabled"@;
    assert(x[12] == ' ' && y[12] == 'v');
    if ipv6 {
        assert(t[1] == ipv6_state(name, true));
        if node is Some {
            assert(t[2] == no_host_route(ip::ipv4_text(node->0), None));
        }
    } else if node is Some {
        assert(t[1] == no_host_route(ip::ipv4_text(node->0), None));
    }
}

/// The name that a report puts between quotation marks is that of the interface.
pub proof fn law_report_names_interface(name: Seq<char>)
    requires
        name.len() > 0,
        name[0] != '"' && name[0] != '\'',
        name.last() != '"' && name.last() != '\'',
    ensures
        interface_name("Configuration for interface \""@ + name + "\""@) == Some(name),
        interface_name("接口 \""@ + name + "\" 的配置"@) == Some(name),
{
    reveal_strlit("Configuration for interface \"");
    reveal_strlit("Configuration for interface ");
    reveal_strlit("接口 \"");
    reveal_strlit("接口 ");
    reveal_strlit("\"");
    reveal_strlit("\" 的配置");
    reveal_strlit(" 的配置");
    reveal_strlit("\"'");
    let p = "Configuration for interface "@;
    let a = "Configuration for interface \""@ + name + "\""@;
    let q = seq!['"'] + name + seq!['"'];
    assert(a.subrange(0, 28) =~= p);
    assert(text::starts(a, p));
    assert(a.skip(28) =~= q);
    lemma_marks_go(name);
    let b = "接口 \""@ + name + "\" 的配置"@;
    let z = "接口 "@;
    assert(!text::starts(b, p)) by {
        if text::starts(b, p) {
            assert(b.subrange(0, 28)[0] == b[0]);
            assert(p[0] == 'C');
        }
    }
    assert(b.subrange(0, 3) =~= z);
    assert(text::starts(b, z));
    let n = b.skip(3);
    let e = " 的配置"@;
    assert(n =~= q + e);
    assert(n.subrange(n.len() - 4, n.len() as int) =~= e);
    assert(text::ends(n, e));
    assert(n.take(n.len() - 4) =~= q);
}

proof fn lemma_marks_go(name: Seq<char>)
    requires
        name.len() > 0,
        name[0] != '"' && name[0] != '\'',
        name.last() != '"' && name.last() != '\'',
    ensures
        text::without_any(seq!['"'] + name + seq!['"'], "\"'"@) == name,
{
    reveal_strlit("\"'");
    let m = "\"'"@;
    let q = seq!['"'] + name + seq!['"'];
    assert(m[0] == '"');
    assert(m.contains('"'));
    let t = name + seq!['"'];
    assert(q[0] == '"');
    assert(q.skip(1) =~= t);
    assert(t[0] == name[0]);
    assert(!m.contains(t[0]));
    assert(text::without_any_start(t, m) == t);
    assert(text::without_any_start(q, m) == text::without_any_start(q.skip(1), m));
    assert(t.last() == '"');
    assert(t.drop_last() =~= name);
    assert(!m.contains(name.last()));
    assert(text::without_any_end(name, m) == name);
    assert(text::without_any_end(t, m) == text::without_any_end(t.drop_last(), m));
}

/// An interface is reported where a line after the one that names it shows an address at
/// which queries are caught, and no other interface is named in between.
pub proof fn law_interface_is_reported(before: Seq<Seq<char>>, head: Seq<char>, line: Seq<char>, name: Seq<char>)
    requires
        interface_name(text::trimmed(head)) == Some(name),
        interface_name(text::trimmed(line)) is None,
    ensures
        text::has(text::trimmed(line), "198.18."@) ==> reported_names(
            before.push(head).push(line),
        ).1.contains(name),
        !text::has(text::trimmed(line), "198.18."@) ==> reported_names(before.push(head).push(line)).1
            == reported_names(before).1,
        reported_names(before.push(head)) == (Some(name), reported_names(before).1),
{
    let h = before.push(head);
    let l = h.push(line);
    assert(h.drop_last() =~= before);
    assert(l.drop_last() =~= h);
    assert(h.last() == head && l.last() == line);
    assert(reported_names(h) == (Some(name), reported_names(before).1));
    reveal_with_fuel(reported_names, 2);
    let names = reported_names(before).1;
    assert(names.push(name).last() == name);
    assert(names.push(name).contains(name));
}

/// Every interface but the virtual one gets its name server back.
pub proof fn law_reset_of_each(names: Seq<Seq<char>>, i: int)
    requires
        0 <= i < names.len(),
        !text::same_nocase(names[i], "NanoClash"@),
    ensures
        resets(names).contains(
            CommandView::Netsh("interface ip set dns name=\""@ + names[i] + "\" dhcp"@),
        ),
    decreases names.len(),
{
    let c = CommandView::Netsh("interface ip set dns name=\""@ + names[i] + "\" dhcp"@);
    let rest = resets(names.drop_last());
    if i == names.len() - 1 {
        assert(rest.push(c).last() == c);
        assert(resets(names).contains(c));
    } else {
        law_reset_of_each(names.drop_last(), i);
        let j = choose|j: int| 0 <= j < rest.len() && rest[j] == c;
        assert(resets(names)[j] == c);
    }
}

/// The virtual interface, in letters of any case, is left alone.
pub proof fn law_virtual_interface_is_left(names: Seq<Seq<char>>, name: Seq<char>)
    requires
        text::same_nocase(name, "NanoClash"@),
    ensures
        resets(names.push(name)) == resets(names),
{
    assert(names.push(name).drop_last() =~= names);
}

/// The ways to set the address are tried in turn while each fails and the address cannot
/// be bound, and after a pause from the first one again; it is done as soon as one works
/// or the address can be bound.
pub proof fn law_ways_are_tried_in_turn(n: u32, k: u8)
    requires
        k < 2,
        n + 1 < ROUNDS,
    ensures
        setup_action(SetupPhase::Begin(n)) is Check,
        setup_action(setup_next(SetupPhase::Begin(n), SetupEvent::Bindable(false)))
            == SetupAction::Run(0),
        setup_next(SetupPhase::Begin(n), SetupEvent::Bindable(true)) is Done,
        ({
            let failed = setup_next(SetupPhase::Run(n, k), SetupEvent::Ran(false));
            &&& setup_action(failed) is Check
            &&& setup_next(failed, SetupEvent::Bindable(true)) is Done
            &&& setup_action(setup_next(failed, SetupEvent::Bindable(false))) == SetupAction::Run(
                (k + 1) as u8,
            )
        }),
        setup_next(SetupPhase::Run(n, k), SetupEvent::Ran(true)) is Done,
        ({
            let failed = setup_next(SetupPhase::Run(n, 2), SetupEvent::Ran(false));
            let all = setup_next(failed, SetupEvent::Bindable(false));
            let paused = setup_next(all, SetupEvent::Bindable(false));
            &&& setup_action(paused) is Sleep
            &&& setup_next(paused, SetupEvent::Woke) == SetupPhase::Begin((n + 1) as u32)
        }),
        setup_next(SetupPhase::Last, SetupEvent::Bindable(true)) is Done,
        setup_next(SetupPhase::Last, SetupEvent::Bindable(false)) is Failed,
{
}

} // verus!
