//! What the window shows and what its switches do.

use vstd::prelude::*;

use crate::config::node;
use crate::config::node::{NodeView, ProxyNode};
use crate::config::profiles;
use crate::config::profiles::{EntryView, ProfileEntry, ProfileKind, ProfileStore};
use crate::inbound::INBOUND_PORT;
use crate::outbound::{HealthCheckResult, HealthStatus};
use crate::text;
use crate::theme::Palette;
use crate::tray::TrayMenuState;
use crate::ui_state::{SavedNode, UiMode, UiState};

verus! {

// ---- nodes ----
/// A node in the list, with what its last check told.
#[derive(Debug)]
pub struct NodeVm {
    pub node: ProxyNode,
    pub latency: String,
    pub health: HealthStatus,
    pub latency_ms: Option<i32>,
}

#[verifier::ext_equal]
pub struct VmView {
    pub node: NodeView,
    pub latency: Seq<char>,
    pub health: HealthStatus,
    pub latency_ms: Option<i32>,
}

impl View for NodeVm {
    type V = VmView;

    open spec fn view(&self) -> VmView {
        VmView {
            node: self.node@,
            latency: self.latency@,
            health: self.health,
            latency_ms: self.latency_ms,
        }
    }
}

pub open spec fn vm_views(v: Seq<NodeVm>) -> Seq<VmView> {
    Seq::new(v.len(), |i: int| v[i]@)
}

/// What a node is found again with.
#[verifier::ext_equal]
pub struct SavedView {
    pub name: Seq<char>,
    pub server: Seq<char>,
    pub port: u16,
}

impl View for SavedNode {
    type V = SavedView;

    open spec fn view(&self) -> SavedView {
        SavedView { name: self.name@, server: self.server@, port: self.port }
    }
}

pub open spec fn opt_saved(o: Option<SavedNode>) -> Option<SavedView> {
    match o {
        Some(n) => Some(n@),
        None => None,
    }
}

pub open spec fn is_saved(n: NodeView, want: SavedView) -> bool {
    n.name == want.name && n.server == want.server && n.port == want.port
}

/// The first node from one on that is the same, or, failing that, has the same name
/// and is no notice.
pub open spec fn match_from(v: Seq<VmView>, want: SavedView, exact: bool, i: int) -> Option<int>
    decreases v.len() - i,
{
    if i >= v.len() {
        None
    } else if exact && is_saved(v[i].node, want) || !exact && v[i].node.name == want.name
        && !node::is_notice(v[i].node.name) {
        Some(i)
    } else {
        match_from(v, want, exact, i + 1)
    }
}

/// Where a node that was chosen stands in the list.
pub open spec fn found_node(v: Seq<VmView>, want: SavedView) -> Option<int> {
    match match_from(v, want, true, 0) {
        Some(i) => Some(i),
        None => match_from(v, want, false, 0),
    }
}

/// The first node that is no notice.
pub open spec fn first_node(v: Seq<VmView>, i: int) -> Option<int>
    decreases v.len() - i,
{
    if i >= v.len() {
        None
    } else if !node::is_notice(v[i].node.name) {
        Some(i)
    } else {
        first_node(v, i + 1)
    }
}

proof fn lemma_match_from(v: Seq<VmView>, want: SavedView, exact: bool, i: int)
    requires
        0 <= i,
    ensures
        match match_from(v, want, exact, i) {
            Some(p) => i <= p < v.len() && v[p].node.name == want.name && (exact ==> is_saved(
                v[p].node,
                want,
            )) && (!exact ==> !node::is_notice(v[p].node.name)),
            None => true,
        },
    decreases v.len() - i,
{
    if i < v.len() {
        lemma_match_from(v, want, exact, i + 1);
    }
}

proof fn lemma_first_node(v: Seq<VmView>, i: int)
    requires
        0 <= i,
    ensures
        match first_node(v, i) {
            Some(p) => i <= p < v.len() && !node::is_notice(v[p].node.name),
            None => forall|j: int| i <= j < v.len() ==> node::is_notice(#[trigger] v[j].node.name),
        },
    decreases v.len() - i,
{
    if i < v.len() {
        lemma_first_node(v, i + 1);
    }
}

fn same_text(a: &str, b: &str) -> (r: bool)
    ensures
        r == (a@ == b@),
{
    let x = text::chars_of(a);
    let y = text::chars_of(b);
    text::same(x.as_slice(), y.as_slice())
}

fn find_match(nodes: &[NodeVm], want: &SavedNode, exact: bool) -> (r: Option<usize>)
    ensures
        match r {
            Some(i) => match_from(vm_views(nodes@), want@, exact, 0) == Some(i as int),
            None => match_from(vm_views(nodes@), want@, exact, 0) is None,
        },
{
    let ghost vs = vm_views(nodes@);
    let mut i: usize = 0;
    while i < nodes.len()
        invariant
            i <= nodes@.len(),
            vs == vm_views(nodes@),
            match_from(vs, want@, exact, 0) == match_from(vs, want@, exact, i as int),
        decreases nodes@.len() - i,
    {
        assert(vs[i as int] == nodes@[i as int]@);
        let n = &nodes[i].node;
        let hit: bool = if exact {
            same_text(n.name.as_str(), want.name.as_str()) && same_text(
                n.server.as_str(),
                want.server.as_str(),
            ) && n.port == want.port
        } else {
            same_text(n.name.as_str(), want.name.as_str()) && !n.is_subscription_info()
        };
        if hit {
            return Some(i);
        }
        i += 1;
    }
    None
}

/// Where a node that was chosen stands in the list: the same one, else the first
/// with its name.
pub fn find_saved_node(nodes: &[NodeVm], want: &SavedNode) -> (r: Option<usize>)
    ensures
        match r {
            Some(i) => found_node(vm_views(nodes@), want@) == Some(i as int) && i < nodes@.len(),
            None => found_node(vm_views(nodes@), want@) is None,
        },
{
    proof {
        lemma_match_from(vm_views(nodes@), want@, true, 0);
        lemma_match_from(vm_views(nodes@), want@, false, 0);
    }
    match find_match(nodes, want, true) {
        Some(i) => Some(i),
        None => find_match(nodes, want, false),
    }
}

fn find_first(nodes: &[NodeVm]) -> (r: Option<usize>)
    ensures
        match r {
            Some(i) => first_node(vm_views(nodes@), 0) == Some(i as int) && i < nodes@.len(),
            None => first_node(vm_views(nodes@), 0) is None,
        },
{
    let ghost vs = vm_views(nodes@);
    let mut i: usize = 0;
    while i < nodes.len()
        invariant
            i <= nodes@.len(),
            vs == vm_views(nodes@),
            first_node(vs, 0) == first_node(vs, i as int),
        decreases nodes@.len() - i,
    {
        assert(vs[i as int] == nodes@[i as int]@);
        if !nodes[i].node.is_subscription_info() {
            return Some(i);
        }
        i += 1;
    }
    None
}

// ---- order ----
/// The rank of a node: notices first, then nodes that answered by their time, then
/// those that did not, then those that were not checked.
pub open spec fn rank(n: VmView) -> (int, int) {
    if node::is_notice(n.node.name) {
        (0, 0)
    } else {
        match n.health {
            HealthStatus::Good | HealthStatus::Slow => (
                1,
                match n.latency_ms {
                    Some(ms) => ms as int,
                    None => i32::MAX as int,
                },
            ),
            HealthStatus::LatencyFailed => (2, i32::MAX as int),
            HealthStatus::Checking | HealthStatus::Idle => (3, i32::MAX as int),
        }
    }
}

pub open spec fn ranks_below(a: (int, int), b: (int, int)) -> bool {
    a.0 < b.0 || a.0 == b.0 && a.1 < b.1
}

pub fn health_rank(n: &NodeVm) -> (r: (u8, i32))
    ensures
        (r.0 as int, r.1 as int) == rank(n@),
{
    if n.node.is_subscription_info() {
        return (0, 0);
    }
    match n.health {
        HealthStatus::Good | HealthStatus::Slow => (
            1,
            match n.latency_ms {
                Some(ms) => ms,
                None => i32::MAX,
            },
        ),
        HealthStatus::LatencyFailed => (2, i32::MAX),
        HealthStatus::Checking | HealthStatus::Idle => (3, i32::MAX),
    }
}

/// The place of a node in a list in order: behind those of its rank.
pub open spec fn place(s: Seq<VmView>, x: VmView, i: int) -> int
    decreases s.len() - i,
{
    if i >= s.len() {
        s.len() as int
    } else if ranks_below(rank(x), rank(s[i])) {
        i
    } else {
        place(s, x, i + 1)
    }
}

/// The list in order; nodes of the same rank stay in theirs.
pub open spec fn sorted(s: Seq<VmView>) -> Seq<VmView>
    decreases s.len(),
{
    if s.len() == 0 {
        s
    } else {
        let t = sorted(s.drop_last());
        t.insert(place(t, s.last(), 0), s.last())
    }
}

proof fn lemma_place(s: Seq<VmView>, x: VmView, i: int)
    requires
        0 <= i <= s.len(),
    ensures
        i <= place(s, x, i) <= s.len(),
        forall|j: int| i <= j < place(s, x, i) ==> !ranks_below(rank(x), rank(#[trigger] s[j])),
        place(s, x, i) < s.len() ==> ranks_below(rank(x), rank(s[place(s, x, i)])),
    decreases s.len() - i,
{
    if i < s.len() && !ranks_below(rank(x), rank(s[i])) {
        lemma_place(s, x, i + 1);
    }
}

/// Puts a list in order.
pub fn sort_nodes(nodes: Vec<NodeVm>) -> (r: Vec<NodeVm>)
    ensures
        vm_views(r@) == sorted(vm_views(nodes@)),
{
    let ghost all = vm_views(nodes@);
    let mut rest = nodes;
    let mut out: Vec<NodeVm> = Vec::new();
    let ghost mut done: int = 0;
    assert(all.skip(0) =~= all);
    assert(vm_views(out@) =~= sorted(all.take(0)));
    while rest.len() > 0
        invariant
            0 <= done <= all.len(),
            rest@.len() == all.len() - done,
            vm_views(rest@) == all.skip(done),
            vm_views(out@) == sorted(all.take(done)),
        decreases rest@.len(),
    {
        let ghost before = rest@;
        let x = rest.remove(0);
        proof {
            assert(vm_views(before)[0] == x@);
            assert(all.skip(done)[0] == all[done]);
            assert(all.take(done + 1).drop_last() =~= all.take(done));
            assert(all.take(done + 1).last() == x@);
            assert forall|j: int| 0 <= j < rest@.len() implies vm_views(rest@)[j] == all.skip(
                done + 1,
            )[j] by {
                assert(vm_views(before)[j + 1] == all.skip(done)[j + 1]);
            }
            assert(vm_views(rest@) =~= all.skip(done + 1));
        }
        let kx: (u8, i32) = health_rank(&x);
        let mut i: usize = 0;
        let ghost t = vm_views(out@);
        loop
            invariant
                i <= out@.len(),
                t == vm_views(out@),
                (kx.0 as int, kx.1 as int) == rank(x@),
                place(t, x@, 0) == place(t, x@, i as int),
            ensures
                i <= out@.len(),
                place(t, x@, 0) == i,
            decreases out@.len() - i,
        {
            if i == out.len() {
                break;
            }
            assert(t[i as int] == out@[i as int]@);
            let k: (u8, i32) = health_rank(&out[i]);
            if kx.0 < k.0 || kx.0 == k.0 && kx.1 < k.1 {
                break;
            }
            i += 1;
        }
        let ghost v = x@;
        out.insert(i, x);
        proof {
            assert(vm_views(out@) =~= t.insert(i as int, v));
            done = done + 1;
        }
    }
    assert(all.take(done) =~= all);
    out
}

/// The color of a node's time.
pub fn latency_color(health: HealthStatus, muted: u32) -> (r: u32)
    ensures
        r == (match health {
            HealthStatus::Good => 0x16a34au32,
            HealthStatus::Slow => 0xca8a04u32,
            HealthStatus::LatencyFailed => 0xdc2626u32,
            _ => muted,
        }),
{
    match health {
        HealthStatus::Good => 0x16a34a,
        HealthStatus::Slow => 0xca8a04,
        HealthStatus::LatencyFailed => 0xdc2626,
        _ => muted,
    }
}

// ---- the panel ----
/// The state of the window.
#[derive(Debug)]
pub struct Panel {
    pub nodes: Vec<NodeVm>,
    pub selected: Option<usize>,
    pub proxy_on: bool,
    pub enhance_on: bool,
    pub enhance_busy: bool,
    pub health_running: bool,
    pub error: String,
}

#[verifier::ext_equal]
pub struct PanelView {
    pub nodes: Seq<VmView>,
    pub selected: Option<int>,
    pub proxy_on: bool,
    pub enhance_on: bool,
    pub enhance_busy: bool,
    pub health_running: bool,
    pub error: Seq<char>,
}

impl View for Panel {
    type V = PanelView;

    open spec fn view(&self) -> PanelView {
        PanelView {
            nodes: vm_views(self.nodes@),
            selected: match self.selected {
                Some(i) => Some(i as int),
                None => None,
            },
            proxy_on: self.proxy_on,
            enhance_on: self.enhance_on,
            enhance_busy: self.enhance_busy,
            health_running: self.health_running,
            error: self.error@,
        }
    }
}

impl PanelView {
    /// What is selected is in the list.
    pub open spec fn wf(self) -> bool {
        self.selected is Some ==> 0 <= self.selected->0 < self.nodes.len()
    }

    /// The node that was chosen, if it is one.
    pub open spec fn chosen(self) -> Option<SavedView> {
        match self.selected {
            None => None,
            Some(i) => {
                let n = self.nodes[i].node;
                if node::is_notice(n.name) {
                    None
                } else {
                    Some(SavedView { name: n.name, server: n.server, port: n.port })
                }
            },
        }
    }

    /// The mode that is remembered.
    pub open spec fn mode(self) -> UiMode {
        if self.enhance_on {
            UiMode::Enhance
        } else if self.proxy_on {
            UiMode::Proxy
        } else {
            UiMode::Off
        }
    }

    /// Whether no node can be used.
    pub open spec fn without_nodes(self) -> bool {
        forall|i: int|
            0 <= i < self.nodes.len() ==> node::is_notice(#[trigger] self.nodes[i].node.name)
    }

    /// The panel with another list: the node that was chosen stays so, else the
    /// first one is.
    pub open spec fn reloaded(self, v: Seq<VmView>) -> PanelView {
        PanelView {
            nodes: v,
            selected: match (match self.chosen() {
                Some(w) => found_node(v, w),
                None => None,
            }) {
                Some(i) => Some(i),
                None => first_node(v, 0),
            },
            ..self
        }
    }

    /// The panel with its list in order; the node that was chosen stays so.
    pub open spec fn in_order(self) -> PanelView {
        let v = sorted(self.nodes);
        PanelView {
            nodes: v,
            selected: match self.chosen() {
                Some(w) => found_node(v, w),
                None => None,
            },
            ..self
        }
    }
}

/// A node that was not checked.
pub open spec fn unchecked(n: NodeView) -> VmView {
    VmView { node: n, latency: "-"@, health: HealthStatus::Idle, latency_ms: None }
}

/// A node that is being checked; a notice is not.
pub open spec fn checking(n: VmView) -> VmView {
    if node::is_notice(n.node.name) {
        n
    } else {
        VmView { latency: "…"@, health: HealthStatus::Checking, latency_ms: None, ..n }
    }
}

/// How many nodes are no notices.
pub open spec fn node_count(v: Seq<VmView>) -> nat
    decreases v.len(),
{
    if v.len() == 0 {
        0
    } else {
        node_count(v.drop_last()) + if node::is_notice(v.last().node.name) {
            0nat
        } else {
            1nat
        }
    }
}

/// The time that a check told.
pub open spec fn latency_text(ok: bool, ms: Option<i32>) -> Seq<char> {
    if ok {
        text::dec_int(
            match ms {
                Some(n) => n as int,
                None => 0,
            },
        ) + "ms"@
    } else {
        "timeout"@
    }
}

/// A node after a check.
pub open spec fn checked(n: VmView, r: HealthCheckResult) -> VmView {
    VmView {
        health: r.status,
        latency_ms: r.latency_ms,
        latency: latency_text(r.latency_ok, r.latency_ms),
        ..n
    }
}

/// What the switch of the system proxy does.
#[derive(Clone, Copy, Debug, PartialEq, Eq, Structural)]
pub struct ProxyToggle {
    /// The system proxy is turned on, else off.
    pub on: bool,
    /// The virtual interface goes down first.
    pub stop_enhance: bool,
}

/// What the switch of the enhanced mode does.
#[derive(Clone, Copy, Debug, PartialEq, Eq, Structural)]
pub enum EnhanceToggle {
    NoNodes,
    /// More rights are asked for.
    Elevate,
    Start,
    Stop,
}

/// How a start of the enhanced mode begins.
#[derive(Clone, Copy, Debug, PartialEq, Eq, Structural)]
pub enum EnhanceBegin {
    /// It is on.
    Running,
    /// It is being started.
    Busy,
    /// The system proxy is turned off, and the virtual interface brought up.
    Go,
}

/// What is done with the mode that was remembered.
#[derive(Clone, Copy, Debug, PartialEq, Eq, Structural)]
pub enum Restore {
    Nothing,
    Proxy,
    Enhance,
}

/// How often the enhanced mode is tried when the mode is restored.
pub const RESTORE_ATTEMPTS: u32 = 6;

/// How often the proxy tries to listen when the program starts.
pub const LISTEN_ATTEMPTS: u32 = 25;

/// Whether a start that failed at an attempt is tried again.
pub fn tries_again(attempt: u32, attempts: u32) -> (r: bool)
    ensures
        r == (attempt + 1 < attempts),
{
    attempts > 0 && attempt < attempts - 1
}

impl Panel {
    pub fn new() -> (r: Self)
        ensures
            r@ == (PanelView {
                nodes: Seq::empty(),
                selected: None,
                proxy_on: false,
                enhance_on: false,
                enhance_busy: false,
                health_running: false,
                error: Seq::empty(),
            }),
            r@.wf(),
    {
        let r = Panel {
            nodes: Vec::new(),
            selected: None,
            proxy_on: false,
            enhance_on: false,
            enhance_busy: false,
            health_running: false,
            error: String::new(),
        };
        assert(r@.nodes =~= Seq::empty());
        assert(r@.error =~= Seq::empty());
        r
    }

    /// The node that was chosen, as it is remembered.
    pub fn saved_node(&self) -> (r: Option<SavedNode>)
        requires
            self@.wf(),
        ensures
            opt_saved(r) == self@.chosen(),
    {
        match self.selected {
            None => None,
            Some(i) => {
                assert(self@.nodes[i as int] == self.nodes@[i as int]@);
                let n = &self.nodes[i].node;
                if n.is_subscription_info() {
                    None
                } else {
                    Some(
                        SavedNode {
                            name: n.name.as_str().to_owned(),
                            server: n.server.as_str().to_owned(),
                            port: n.port,
                        },
                    )
                }
            },
        }
    }

    /// The node that connections go through.
    pub fn current<'a>(&'a self) -> (r: Option<&'a ProxyNode>)
        requires
            self@.wf(),
        ensures
            match self@.selected {
                Some(i) => r is Some && r->0@ == self@.nodes[i].node,
                None => r is None,
            },
    {
        match self.selected {
            Some(i) => {
                assert(self@.nodes[i as int] == self.nodes@[i as int]@);
                Some(&self.nodes[i].node)
            },
            None => None,
        }
    }

    /// Shows another list of nodes.
    pub fn reload_nodes(&mut self, parsed: Vec<ProxyNode>)
        requires
            old(self)@.wf(),
        ensures
            final(self)@ == old(self)@.reloaded(
                node::node_views(parsed@).map_values(|n: NodeView| unchecked(n)),
            ),
            final(self)@.wf(),
    {
        let ghost start = self@;
        let ghost all = node::node_views(parsed@);
        let ghost want = all.map_values(|n: NodeView| unchecked(n));
        let prev = self.saved_node();
        let mut rest = parsed;
        let mut nodes: Vec<NodeVm> = Vec::new();
        let ghost mut done: int = 0;
        assert(all.skip(0) =~= all);
        assert(vm_views(nodes@) =~= want.take(0));
        while rest.len() > 0
            invariant
                0 <= done <= all.len(),
                rest@.len() == all.len() - done,
                node::node_views(rest@) == all.skip(done),
                want == all.map_values(|n: NodeView| unchecked(n)),
                vm_views(nodes@) == want.take(done),
            decreases rest@.len(),
        {
            let ghost before = rest@;
            let n = rest.remove(0);
            proof {
                assert(node::node_views(before)[0] == n@);
                assert(all.skip(done)[0] == all[done]);
                assert forall|j: int| 0 <= j < rest@.len() implies node::node_views(rest@)[j]
                    == all.skip(done + 1)[j] by {
                    assert(node::node_views(before)[j + 1] == all.skip(done)[j + 1]);
                }
                assert(node::node_views(rest@) =~= all.skip(done + 1));
            }
            let ghost t = vm_views(nodes@);
            let vm = NodeVm {
                node: n,
                latency: "-".to_owned(),
                health: HealthStatus::Idle,
                latency_ms: None,
            };
            let ghost v = vm@;
            nodes.push(vm);
            proof {
                assert(v == want[done]);
                assert(vm_views(nodes@) =~= t.push(v));
                assert(want.take(done + 1) =~= want.take(done).push(want[done]));
                done = done + 1;
            }
        }
        assert(want.take(done) =~= want);
        let mut selected: Option<usize> = None;
        if let Some(w) = &prev {
            selected = find_saved_node(nodes.as_slice(), w);
        }
        if selected.is_none() {
            selected = find_first(nodes.as_slice());
        }
        self.nodes = nodes;
        self.selected = selected;
        assert(self@ =~= start.reloaded(want));
    }

    /// Chooses the node that was remembered, if it is in the list.
    pub fn apply_saved_node(&mut self, saved: &UiState)
        requires
            old(self)@.wf(),
        ensures
            final(self)@.wf(),
            final(self)@ == (match saved.node {
                None => old(self)@,
                Some(w) => match found_node(old(self)@.nodes, w@) {
                    None => old(self)@,
                    Some(i) => PanelView { selected: Some(i), ..old(self)@ },
                },
            }),
    {
        if let Some(w) = &saved.node {
            if let Some(i) = find_saved_node(self.nodes.as_slice(), w) {
                self.selected = Some(i);
            }
        }
    }

    /// What is remembered.
    pub fn persist(&self) -> (r: UiState)
        requires
            self@.wf(),
        ensures
            r.mode == self@.mode(),
            opt_saved(r.node) == self@.chosen(),
    {
        let mode = if self.enhance_on {
            UiMode::Enhance
        } else if self.proxy_on {
            UiMode::Proxy
        } else {
            UiMode::Off
        };
        UiState { mode, node: self.saved_node() }
    }

    /// Chooses a node; a notice is not chosen. Says whether the routes have to
    /// follow.
    pub fn select_node(&mut self, i: usize) -> (r: bool)
        requires
            old(self)@.wf(),
            i < old(self).nodes@.len(),
        ensures
            final(self)@.wf(),
            r == !node::is_notice(old(self)@.nodes[i as int].node.name),
            final(self)@ == (if r {
                PanelView { selected: Some(i as int), ..old(self)@ }
            } else {
                old(self)@
            }),
    {
        assert(self@.nodes[i as int] == self.nodes@[i as int]@);
        if self.nodes[i].node.is_subscription_info() {
            return false;
        }
        self.selected = Some(i);
        true
    }

    /// The routes followed the node that was chosen, or did not.
    pub fn node_changed(&mut self, ok: bool)
        ensures
            final(self)@ == (PanelView {
                error: if ok {
                    Seq::empty()
                } else {
                    "节点路由更新失败"@
                },
                ..old(self)@
            }),
    {
        let ghost start = self@;
        self.error = if ok {
            String::new()
        } else {
            "节点路由更新失败".to_owned()
        };
        assert(ok ==> self@.error =~= Seq::empty());
    }

    /// The switch of the system proxy: it cannot be on beside the enhanced mode.
    pub fn toggle_proxy(&mut self) -> (r: ProxyToggle)
        ensures
            r.on == !old(self).proxy_on,
            r.stop_enhance == (r.on && old(self).enhance_on),
            final(self)@ == (PanelView {
                enhance_on: old(self).enhance_on && !r.on,
                ..old(self)@
            }),
    {
        let on: bool = !self.proxy_on;
        let stop_enhance: bool = on && self.enhance_on;
        if stop_enhance {
            self.enhance_on = false;
        }
        ProxyToggle { on, stop_enhance }
    }

    /// The system proxy was switched: whether it is on, and what went wrong.
    pub fn proxy_switched(&mut self, system_on: bool, last_error: Option<String>)
        ensures
            final(self)@ == (match last_error {
                Some(e) => PanelView { proxy_on: false, error: e@, ..old(self)@ },
                None => PanelView { proxy_on: system_on, error: Seq::empty(), ..old(self)@ },
            }),
    {
        match last_error {
            Some(e) => {
                self.proxy_on = false;
                self.error = e;
            },
            None => {
                self.proxy_on = system_on;
                self.error = String::new();
                assert(self@.error =~= Seq::empty());
            },
        }
    }

    fn has_no_nodes(&self) -> (r: bool)
        ensures
            r == self@.without_nodes(),
    {
        proof {
            lemma_first_node(self@.nodes, 0);
        }
        match find_first(self.nodes.as_slice()) {
            Some(i) => {
                assert(!node::is_notice(self@.nodes[i as int].node.name));
                false
            },
            None => true,
        }
    }

    /// The switch of the enhanced mode, for a program with or without the rights.
    pub fn toggle_enhance(&mut self, admin: bool) -> (r: EnhanceToggle)
        ensures
            r == (if old(self)@.without_nodes() {
                EnhanceToggle::NoNodes
            } else if !admin {
                EnhanceToggle::Elevate
            } else if old(self).enhance_on {
                EnhanceToggle::Stop
            } else {
                EnhanceToggle::Start
            }),
            final(self)@ == (if r == EnhanceToggle::NoNodes {
                PanelView { error: "无可用节点, 已关闭增强模式"@, ..old(self)@ }
            } else {
                old(self)@
            }),
    {
        if self.has_no_nodes() {
            self.error = "无可用节点, 已关闭增强模式".to_owned();
            return EnhanceToggle::NoNodes;
        }
        if !admin {
            return EnhanceToggle::Elevate;
        }
        if self.enhance_on {
            EnhanceToggle::Stop
        } else {
            EnhanceToggle::Start
        }
    }

    /// Begins to start the enhanced mode, where the virtual interface is up or not.
    pub fn begin_enhance(&mut self, running: bool) -> (r: EnhanceBegin)
        ensures
            r == (if running {
                EnhanceBegin::Running
            } else if old(self).enhance_busy {
                EnhanceBegin::Busy
            } else {
                EnhanceBegin::Go
            }),
            final(self)@ == (match r {
                EnhanceBegin::Running => PanelView {
                    enhance_on: true,
                    enhance_busy: false,
                    error: Seq::empty(),
                    ..old(self)@
                },
                EnhanceBegin::Busy => old(self)@,
                EnhanceBegin::Go => PanelView {
                    enhance_busy: true,
                    proxy_on: false,
                    ..old(self)@
                },
            }),
    {
        if running {
            self.enhance_on = true;
            self.enhance_busy = false;
            self.error = String::new();
            assert(self@.error =~= Seq::empty());
            return EnhanceBegin::Running;
        }
        if self.enhance_busy {
            return EnhanceBegin::Busy;
        }
        self.enhance_busy = true;
        self.proxy_on = false;
        EnhanceBegin::Go
    }

    /// A start of the enhanced mode is over, with or without an error. What is
    /// remembered is returned: a start that failed is remembered as meant where the
    /// intent is kept.
    pub fn end_enhance(&mut self, failed: bool, err: Option<String>, keep_intent: bool) -> (r:
        UiState)
        requires
            old(self)@.wf(),
        ensures
            final(self)@.wf(),
            final(self)@ == (PanelView {
                enhance_on: !failed,
                enhance_busy: false,
                error: if !failed {
                    Seq::empty()
                } else {
                    match err {
                        Some(e) => e@,
                        None => "enhance failed"@,
                    }
                },
                ..old(self)@
            }),
            r.mode == (if failed && keep_intent {
                UiMode::Enhance
            } else {
                final(self)@.mode()
            }),
            opt_saved(r.node) == final(self)@.chosen(),
    {
        self.enhance_busy = false;
        self.enhance_on = !failed;
        if !failed {
            self.error = String::new();
            assert(self@.error =~= Seq::empty());
        } else {
            self.error = match err {
                Some(e) => e,
                None => "enhance failed".to_owned(),
            };
        }
        if failed && keep_intent {
            UiState { mode: UiMode::Enhance, node: self.saved_node() }
        } else {
            self.persist()
        }
    }

    /// The enhanced mode is off.
    pub fn stop_enhance(&mut self)
        ensures
            final(self)@ == (PanelView { enhance_on: false, enhance_busy: false, ..old(self)@ }),
    {
        self.enhance_on = false;
        self.enhance_busy = false;
    }

    /// What is done with the mode that was remembered.
    pub fn restore_mode(&mut self, mode: UiMode, windows: bool, admin: bool) -> (r: Restore)
        ensures
            r == (match mode {
                UiMode::Off => Restore::Nothing,
                UiMode::Proxy => Restore::Proxy,
                UiMode::Enhance => if windows && !old(self)@.without_nodes() && admin {
                    Restore::Enhance
                } else {
                    Restore::Nothing
                },
            }),
            final(self)@ == (if mode == UiMode::Enhance && windows && old(self)@.without_nodes() {
                PanelView { error: "无可用节点, 已关闭增强模式"@, ..old(self)@ }
            } else {
                old(self)@
            }),
    {
        match mode {
            UiMode::Off => Restore::Nothing,
            UiMode::Proxy => Restore::Proxy,
            UiMode::Enhance => {
                if !windows {
                    return Restore::Nothing;
                }
                if self.has_no_nodes() {
                    self.error = "无可用节点, 已关闭增强模式".to_owned();
                    return Restore::Nothing;
                }
                if admin {
                    Restore::Enhance
                } else {
                    Restore::Nothing
                }
            },
        }
    }

    /// The list in order; the node that was chosen stays so.
    pub fn sort_health_partial(&mut self)
        requires
            old(self)@.wf(),
        ensures
            final(self)@ == old(self)@.in_order(),
            final(self)@.wf(),
    {
        let ghost start = self@;
        let key = self.saved_node();
        let mut v: Vec<NodeVm> = Vec::new();
        std::mem::swap(&mut v, &mut self.nodes);
        let s = sort_nodes(v);
        self.selected = match &key {
            Some(w) => find_saved_node(s.as_slice(), w),
            None => None,
        };
        self.nodes = s;
        assert(self@ =~= start.in_order());
    }

    /// The switch of the check: a check that runs is given up; else all nodes are
    /// checked, and how many these are is returned.
    pub fn toggle_health(&mut self) -> (r: Option<usize>)
        requires
            old(self)@.wf(),
        ensures
            final(self)@.wf(),
            if old(self).health_running {
                r is None && final(self)@ == (PanelView { health_running: false, ..old(self)@ })
            } else {
                let v = old(self)@.nodes.map_values(|n: VmView| checking(n));
                &&& r is Some && r->0 == node_count(old(self)@.nodes)
                &&& final(self)@ == (PanelView {
                    nodes: v,
                    health_running: true,
                    ..old(self)@
                }).in_order()
            },
    {
        if self.health_running {
            self.health_running = false;
            return None;
        }
        let ghost start = self@;
        let ghost want = start.nodes.map_values(|n: VmView| checking(n));
        self.health_running = true;
        let mut pending: usize = 0;
        let mut i: usize = 0;
        let total: usize = self.nodes.len();
        assert(start.nodes.take(0).len() == 0);
        while i < total
            invariant
                i <= total,
                total == self.nodes@.len(),
                start == old(self)@,
                total == start.nodes.len(),
                want == start.nodes.map_values(|n: VmView| checking(n)),
                pending <= i,
                pending == node_count(start.nodes.take(i as int)),
                self@ == (PanelView { nodes: self@.nodes, health_running: true, ..start }),
                forall|j: int| 0 <= j < i ==> (#[trigger] self@.nodes[j]) == want[j],
                forall|j: int| i <= j < total ==> (#[trigger] self@.nodes[j]) == start.nodes[j],
            decreases total - i,
        {
            let ghost before = self@.nodes;
            let mut vm = self.nodes.remove(i);
            proof {
                assert(vm@ == before[i as int]);
                assert(vm@ == start.nodes[i as int]);
                assert(start.nodes.take(i + 1).drop_last() =~= start.nodes.take(i as int));
                assert(start.nodes.take(i + 1).last() == vm@);
            }
            if !vm.node.is_subscription_info() {
                vm.latency = "…".to_owned();
                vm.health = HealthStatus::Checking;
                vm.latency_ms = None;
                pending += 1;
            }
            let ghost v = vm@;
            self.nodes.insert(i, vm);
            proof {
                assert(v == want[i as int]);
                assert(self@.nodes =~= before.update(i as int, v));
            }
            i += 1;
        }
        assert(start.nodes.take(i as int) =~= start.nodes);
        assert(self@.nodes =~= want);
        self.sort_health_partial();
        Some(pending)
    }

    /// Takes the result of a check of a node.
    pub fn apply_health_result(
        &mut self,
        name: &str,
        server: &str,
        port: u16,
        r: HealthCheckResult,
    )
        requires
            old(self)@.wf(),
        ensures
            final(self)@.wf(),
            final(self)@ == ({
                let w = SavedView { name: name@, server: server@, port };
                match match_from(old(self)@.nodes, w, true, 0) {
                    None => old(self)@,
                    Some(i) => PanelView {
                        nodes: old(self)@.nodes.update(i, checked(old(self)@.nodes[i], r)),
                        ..old(self)@
                    },
                }
            }),
    {
        let want = SavedNode { name: name.to_owned(), server: server.to_owned(), port };
        let ghost start = self@;
        proof {
            lemma_match_from(start.nodes, want@, true, 0);
        }
        if let Some(i) = find_match(self.nodes.as_slice(), &want, true) {
            let mut vm = self.nodes.remove(i);
            assert(vm@ == start.nodes[i as int]);
            let mut t: Vec<char> = Vec::new();
            if r.latency_ok {
                let ms: i32 = match r.latency_ms {
                    Some(n) => n,
                    None => 0,
                };
                t = text::format_int(ms as i64);
                text::append_str(&mut t, "ms");
            } else {
                t = text::chars_of("timeout");
            }
            vm.health = r.status;
            vm.latency_ms = r.latency_ms;
            vm.latency = text::string_of(t.as_slice());
            let ghost v = vm@;
            self.nodes.insert(i, vm);
            assert(self@.nodes =~= start.nodes.update(i as int, v));
        }
    }
}

// ---- texts ----
/// What is told of the speed.
pub fn speed_text(kbps: i32) -> (r: String)
    ensures
        r@ == "传输速度 "@ + text::dec_int(kbps as int) + " KB/s"@,
{
    let mut out = text::chars_of("传输速度 ");
    let d = text::format_int(kbps as i64);
    text::append(&mut out, d.as_slice());
    text::append_str(&mut out, " KB/s");
    text::string_of(out.as_slice())
}

/// What the row of switches shows.
#[derive(Debug)]
pub struct ModeRow {
    pub health: &'static str,
    pub proxy: String,
    pub proxy_color: u32,
    pub enhance: &'static str,
    pub enhance_color: u32,
    /// Whether the switch of the enhanced mode stands at on.
    pub enhance_knob: bool,
}

impl Panel {
    /// The texts and colours of the switches. The enhanced mode may not be
    /// available at all.
    pub fn row_modes(&self, enhance_ok: bool, p: &Palette) -> (r: ModeRow)
        ensures
            r.health@ == (if self.health_running {
                "取消检查"@
            } else {
                "健康检查"@
            }),
            r.proxy@ == (if self.proxy_on {
                "开启 127.0.0.1:"@ + text::dec(INBOUND_PORT as nat)
            } else {
                "关闭"@
            }),
            r.proxy_color == (if self.proxy_on {
                p.success
            } else {
                p.danger
            }),
            r.enhance@ == (if !enhance_ok {
                "不可用"@
            } else if self.enhance_on {
                "开启"@
            } else {
                "关闭"@
            }),
            r.enhance_color == (if !enhance_ok {
                p.muted
            } else if self.enhance_on {
                p.success
            } else {
                p.danger
            }),
            r.enhance_knob == (self.enhance_on && enhance_ok),
    {
        let proxy = if self.proxy_on {
            let mut t = text::chars_of("开启 127.0.0.1:");
            let d = text::format_dec(INBOUND_PORT as u64);
            text::append(&mut t, d.as_slice());
            text::string_of(t.as_slice())
        } else {
            "关闭".to_owned()
        };
        ModeRow {
            health: if self.health_running {
                "取消检查"
            } else {
                "健康检查"
            },
            proxy,
            proxy_color: if self.proxy_on {
                p.success
            } else {
                p.danger
            },
            enhance: if !enhance_ok {
                "不可用"
            } else if self.enhance_on {
                "开启"
            } else {
                "关闭"
            },
            enhance_color: if !enhance_ok {
                p.muted
            } else if self.enhance_on {
                p.success
            } else {
                p.danger
            },
            enhance_knob: self.enhance_on && enhance_ok,
        }
    }

    /// What the menu of the tray is made of.
    pub fn sync_tray(&self, store: &ProfileStore, windows: bool) -> (r: TrayMenuState)
        ensures
            r.proxy_on == self.proxy_on,
            r.enhance_on == self.enhance_on,
            r.enhance_ok == windows,
            text::strings(r.profiles@) == store.list().map_values(|e: EntryView| e.name),
            text::opt_view(r.active_profile) == (match profiles::active_of(
                store.list(),
                store.default_view(),
            ) {
                Some(e) => Some(e.name),
                None => None,
            }),
    {
        let all = store.profiles();
        let ghost names = store.list().map_values(|e: EntryView| e.name);
        let mut v: Vec<String> = Vec::new();
        let mut i: usize = 0;
        while i < all.len()
            invariant
                i <= all@.len(),
                all@ == store.entries@,
                names == store.list().map_values(|e: EntryView| e.name),
                text::strings(v@) == names.take(i as int),
            decreases all@.len() - i,
        {
            let ghost before = text::strings(v@);
            v.push(all[i].name.as_str().to_owned());
            proof {
                assert(store.list()[i as int] == all@[i as int]@);
                assert(text::strings(v@) =~= before.push(names[i as int]));
                assert(names.take(i + 1) =~= names.take(i as int).push(names[i as int]));
            }
            i += 1;
        }
        assert(names.take(i as int) =~= names);
        let active_profile = match store.active() {
            Some(e) => Some(e.name.as_str().to_owned()),
            None => None,
        };
        TrayMenuState {
            proxy_on: self.proxy_on,
            enhance_on: self.enhance_on,
            enhance_ok: windows,
            profiles: v,
            active_profile,
        }
    }

    /// Whether the routes have to follow the chosen node once the nodes were read
    /// anew: with the enhanced mode on and a node chosen.
    pub fn routes_follow(&self) -> (r: bool)
        requires
            self@.wf(),
        ensures
            r == (self.enhance_on && self@.chosen() is Some),
    {
        self.enhance_on && self.saved_node().is_some()
    }
}

/// What is left to use, and until when, of the profile in use: used bytes, all
/// bytes, the end. Only a subscription has these.
pub fn refresh_quota(active: Option<&ProfileEntry>) -> (r: Option<
    (Option<i64>, Option<i64>, Option<i64>),
>)
    ensures
        match active {
            Some(e) => if e.kind == ProfileKind::Cloud {
                r == Some((e.used_bytes, e.total_bytes, e.expire_unix))
            } else {
                r is None
            },
            None => r is None,
        },
{
    match active {
        Some(e) => match e.kind {
            ProfileKind::Cloud => Some((e.used_bytes, e.total_bytes, e.expire_unix)),
            ProfileKind::Local => None,
        },
        None => None,
    }
}

/// Where the profile in use is fetched from again, and its name.
pub fn update_source(active: Option<&ProfileEntry>) -> (r: Option<(String, String)>)
    ensures
        (match r {
            Some((u, n)) => Some((u@, n@)),
            None => None,
        }) == (match active {
            Some(e) => match e@.url {
                Some(u) => Some((u, e@.name)),
                None => None,
            },
            None => None,
        }),
{
    match active {
        Some(e) => match &e.url {
            Some(u) => Some((u.as_str().to_owned(), e.name.as_str().to_owned())),
            None => None,
        },
        None => None,
    }
}

/// What is told of the protocol of a node.
pub fn protocol_text(n: &ProxyNode) -> (r: String)
    ensures
        r@ == (if n.client_fingerprint is Some && n.client_fingerprint->0@.len() > 0 {
            n.kind@ + " (fp 未生效)"@
        } else {
            n.kind@
        }),
{
    if let Some(f) = &n.client_fingerprint {
        if !f.as_str().is_empty() {
            let mut out = text::chars_of(n.kind.as_str());
            text::append_str(&mut out, " (fp 未生效)");
            return text::string_of(out.as_slice());
        }
    }
    n.kind.as_str().to_owned()
}

/// Why the address of a subscription is refused, if it is.
pub open spec fn url_fault(url: Seq<char>) -> Option<Seq<char>> {
    let u = text::trimmed(url);
    if u.len() == 0 {
        Some("请输入订阅地址"@)
    } else if !text::starts(u, "http://"@) && !text::starts(u, "https://"@) {
        Some("订阅地址仅支持 http/https"@)
    } else {
        None
    }
}

/// The address of a subscription that was typed.
pub fn check_url(url: &str) -> (r: Result<String, String>)
    ensures
        match url_fault(url@) {
            Some(m) => r is Err && r->Err_0@ == m,
            None => r is Ok && r->Ok_0@ == text::trimmed(url@),
        },
{
    let c = text::chars_of(url);
    let u = text::trim(c.as_slice());
    if u.len() == 0 {
        return Err("请输入订阅地址".to_owned());
    }
    if !text::starts_with(u, "http://") && !text::starts_with(u, "https://") {
        return Err("订阅地址仅支持 http/https".to_owned());
    }
    Ok(text::string_of(u))
}

/// The longest subscription.
pub const MAX_LOCAL: u64 = 16 * 1024 * 1024;

/// Why a local file is refused, if it is: without a path, without a file there, or
/// too long.
pub fn check_local(path: &str, size: Option<u64>) -> (r: Option<String>)
    ensures
        if text::trimmed(path@).len() == 0 || size is None {
            r is Some && r->0@ == "请选择有效的本地文件"@
        } else if size->0 > MAX_LOCAL {
            r is Some && r->0@ == "本地文件超过 16 MB"@
        } else {
            r is None
        },
{
    let c = text::chars_of(path);
    let p = text::trim(c.as_slice());
    if p.len() == 0 {
        return Some("请选择有效的本地文件".to_owned());
    }
    match size {
        None => Some("请选择有效的本地文件".to_owned()),
        Some(n) => if n > MAX_LOCAL {
            Some("本地文件超过 16 MB".to_owned())
        } else {
            None
        },
    }
}

/// The name of a new subscription: what was typed, else what is suggested.
pub fn typed_or<'a>(typed: &str, suggested: Option<&str>) -> (r: Option<String>)
    ensures
        text::opt_view(r) == (if text::trimmed(typed@).len() == 0 {
            text::opt_str(suggested)
        } else {
            Some(text::trimmed(typed@))
        }),
{
    let c = text::chars_of(typed);
    let t = text::trim(c.as_slice());
    if t.len() == 0 {
        match suggested {
            Some(s) => Some(s.to_owned()),
            None => None,
        }
    } else {
        Some(text::string_of(t))
    }
}

// ---- laws ----
proof fn lemma_below_order(a: (int, int), b: (int, int), c: (int, int))
    ensures
        ranks_below(a, b) ==> !ranks_below(b, a),
        !ranks_below(b, a) && !ranks_below(c, b) ==> !ranks_below(c, a),
        ranks_below(a, b) && !ranks_below(c, b) ==> ranks_below(a, c),
{
}

/// Putting a list in order loses and adds no node, and puts none before one that
/// ranks below it.
pub proof fn law_sorted(s: Seq<VmView>)
    ensures
        sorted(s).to_multiset() == s.to_multiset(),
        sorted(s).len() == s.len(),
        forall|i: int, j: int|
            0 <= i < j < s.len() ==> !ranks_below(
                rank(#[trigger] sorted(s)[j]),
                rank(#[trigger] sorted(s)[i]),
            ),
    decreases s.len(),
{
    broadcast use vstd::seq_lib::group_to_multiset_ensures;

    if s.len() > 0 {
        let p = s.drop_last();
        law_sorted(p);
        let t = sorted(p);
        let x = s.last();
        let k = place(t, x, 0);
        lemma_place(t, x, 0);
        let u = sorted(s);
        assert(u == t.insert(k, x));
        vstd::seq_lib::to_multiset_insert(t, k, x);
        assert(s =~= p.push(x));
        assert forall|i: int, j: int| 0 <= i < j < s.len() implies !ranks_below(
            rank(#[trigger] u[j]),
            rank(#[trigger] u[i]),
        ) by {
            if j < k {
                assert(u[i] == t[i] && u[j] == t[j]);
            } else if j == k {
                assert(u[i] == t[i]);
            } else if i < k {
                assert(u[i] == t[i] && u[j] == t[j - 1]);
            } else if i == k {
                assert(u[j] == t[j - 1]);
                lemma_below_order(rank(x), rank(t[k]), rank(t[j - 1]));
                if j - 1 > k {
                    assert(!ranks_below(rank(t[j - 1]), rank(t[k])));
                }
            } else {
                assert(u[i] == t[i - 1] && u[j] == t[j - 1]);
            }
        }
    } else {
        assert(sorted(s) =~= s);
    }
}

/// Nodes of the same rank stay in their order.
pub proof fn law_sort_is_stable(s: Seq<VmView>, r: (int, int))
    ensures
        sorted(s).filter(|n: VmView| rank(n) == r) == s.filter(|n: VmView| rank(n) == r),
    decreases s.len(),
{
    let f = |n: VmView| rank(n) == r;
    if s.len() > 0 {
        let p = s.drop_last();
        let x = s.last();
        law_sort_is_stable(p, r);
        law_sorted(p);
        let t = sorted(p);
        let k = place(t, x, 0);
        lemma_place(t, x, 0);
        let a = t.take(k);
        let b = t.skip(k);
        assert(sorted(s) =~= a + seq![x] + b);
        assert(t =~= a + b);
        Seq::filter_distributes_over_add(a + seq![x], b, f);
        Seq::filter_distributes_over_add(a, seq![x], f);
        Seq::filter_distributes_over_add(a, b, f);
        reveal_with_fuel(Seq::filter, 2);
        assert(seq![x].drop_last() =~= Seq::empty());
        assert(s =~= p + seq![x]);
        Seq::filter_distributes_over_add(p, seq![x], f);
        if f(x) {
            assert forall|j: int| 0 <= j < b.len() implies !f(#[trigger] b[j]) by {
                assert(b[j] == t[k + j]);
                if j > 0 {
                    assert(!ranks_below(rank(t[k + j]), rank(t[k])));
                }
                lemma_below_order(rank(x), rank(t[k]), rank(t[k + j]));
            }
            lemma_filter_nothing(b, f);
            assert(sorted(s).filter(f) =~= a.filter(f) + seq![x].filter(f));
            assert(t.filter(f) =~= a.filter(f));
        } else {
            assert(seq![x].filter(f) =~= Seq::empty());
            assert(sorted(s).filter(f) =~= t.filter(f));
            assert(s.filter(f) =~= p.filter(f));
        }
    }
}

proof fn lemma_filter_nothing(s: Seq<VmView>, f: spec_fn(VmView) -> bool)
    requires
        forall|j: int| 0 <= j < s.len() ==> !f(#[trigger] s[j]),
    ensures
        s.filter(f) == Seq::<VmView>::empty(),
    decreases s.len(),
{
    reveal(Seq::filter);
    if s.len() > 0 {
        lemma_filter_nothing(s.drop_last(), f);
    }
}

/// Whether the system proxy and the enhanced mode are not both on.
pub open spec fn exclusive(p: PanelView) -> bool {
    !(p.proxy_on && p.enhance_on)
}

/// The switch of the system proxy, whatever it leads to, and the begin of the
/// enhanced mode leave at most one of the two on; so does the end of its start,
/// unless the system proxy was turned on while it was under way.
pub proof fn law_modes_exclude(p: PanelView, system_on: bool)
    requires
        exclusive(p),
    ensures
        ({
            let on = !p.proxy_on;
            let toggled = PanelView { enhance_on: p.enhance_on && !on, ..p };
            &&& exclusive(PanelView { proxy_on: false, ..toggled })
            &&& (on ==> exclusive(PanelView { proxy_on: system_on, ..toggled }))
            &&& (!on && !system_on ==> exclusive(PanelView { proxy_on: system_on, ..toggled }))
        }),
        exclusive(PanelView { enhance_busy: true, proxy_on: false, ..p }),
        !p.proxy_on ==> exclusive(PanelView { enhance_on: true, ..p }),
{
}

/// A node that was chosen is chosen again in another list that has it.
pub proof fn law_choice_survives(p: PanelView, v: Seq<VmView>, i: int)
    requires
        p.wf(),
        p.chosen() is Some,
        0 <= i < v.len(),
        is_saved(v[i].node, p.chosen()->0),
    ensures
        p.reloaded(v).chosen() == p.chosen(),
{
    let w = p.chosen()->0;
    lemma_found_if_there(v, w, 0, i);
    lemma_match_from(v, w, true, 0);
}

proof fn lemma_found_if_there(v: Seq<VmView>, w: SavedView, from: int, i: int)
    requires
        0 <= from <= i < v.len(),
        is_saved(v[i].node, w),
    ensures
        match_from(v, w, true, from) is Some,
    decreases i - from,
{
    if !is_saved(v[from].node, w) {
        lemma_found_if_there(v, w, from + 1, i);
    }
}

/// What order puts first: notices, then nodes that answered, the faster before the slower,
/// then those that did not answer, and last those that were not checked.
pub proof fn law_ranks(a: VmView, b: VmView)
    ensures
        node::is_notice(a.node.name) && !node::is_notice(b.node.name) ==> ranks_below(
            rank(a),
            rank(b),
        ),
        !node::is_notice(a.node.name) && !node::is_notice(b.node.name) ==> {
            let answered_a = a.health is Good || a.health is Slow;
            let answered_b = b.health is Good || b.health is Slow;
            let waits_b = b.health is Checking || b.health is Idle;
            &&& (answered_a && !answered_b ==> ranks_below(rank(a), rank(b)))
            &&& (a.health is LatencyFailed && waits_b ==> ranks_below(rank(a), rank(b)))
            &&& (answered_a && answered_b && a.latency_ms is Some && b.latency_ms is Some
                && a.latency_ms->0 < b.latency_ms->0 ==> ranks_below(rank(a), rank(b)))
        },
{
}

/// A node that is the same is found before one that has only its name; a notice is found
/// by its name alone never.
pub proof fn law_same_node_is_found_first(v: Seq<VmView>, want: SavedView, i: int)
    requires
        0 <= i < v.len(),
        v[i].node.name == want.name,
    ensures
        v[i].node.server == want.server && v[i].node.port == want.port ==> found_node(v, want)
            is Some && found_node(v, want)->0 <= i && v[found_node(v, want)->0].node.server
            == want.server && v[found_node(v, want)->0].node.port == want.port,
        !node::is_notice(want.name) ==> found_node(v, want) is Some && v[found_node(
            v,
            want,
        )->0].node.name == want.name,
{
    lemma_match_from(v, want, true, 0);
    lemma_match_from(v, want, false, 0);
    lemma_match_there(v, want, true, 0, i);
    lemma_match_there(v, want, false, 0, i);
}

proof fn lemma_match_there(v: Seq<VmView>, w: SavedView, exact: bool, from: int, i: int)
    requires
        0 <= from <= i < v.len(),
    ensures
        exact && is_saved(v[i].node, w) || !exact && v[i].node.name == w.name && !node::is_notice(
            w.name,
        ) ==> match_from(v, w, exact, from) is Some && match_from(v, w, exact, from)->0 <= i,
    decreases i - from,
{
    if from < i {
        lemma_match_there(v, w, exact, from + 1, i);
    }
}

/// What is shown of a check: the time in milliseconds, or that there was none.
pub proof fn law_latency_is_shown(ms: i32, other: Option<i32>)
    requires
        0 <= ms,
    ensures
        latency_text(true, Some(ms)) == text::dec(ms as nat) + "ms"@,
        latency_text(true, None) == "0ms"@,
        latency_text(false, other) == "timeout"@,
{
    reveal_strlit("0ms");
    reveal_strlit("ms");
    assert(text::dec(0) =~= seq!['0']);
    assert(text::dec(0) + "ms"@ =~= "0ms"@);
}

/// The mode that is remembered: enhanced before the system proxy, else none.
pub proof fn law_mode_that_is_remembered(p: PanelView)
    ensures
        p.enhance_on ==> p.mode() is Enhance,
        !p.enhance_on && p.proxy_on ==> p.mode() is Proxy,
        !p.enhance_on && !p.proxy_on ==> p.mode() is Off,
{
}

/// Addresses of subscriptions begin with one of two schemes; white space around them does
/// not count.
pub proof fn law_subscription_address(rest: Seq<char>)
    requires
        rest.len() > 0,
        !text::is_white(rest.last()),
    ensures
        url_fault("http://"@ + rest) is None,
        url_fault("https://"@ + rest) is None,
        url_fault("ftp://"@ + rest) == Some("订阅地址仅支持 http/https"@),
        url_fault(seq![' ', '\t']) == Some("请输入订阅地址"@),
{
    reveal_strlit("http://");
    reveal_strlit("https://");
    reveal_strlit("ftp://");
    let e = Seq::<char>::empty();
    let a = "http://"@ + rest;
    let b = "https://"@ + rest;
    let c = "ftp://"@ + rest;
    assert(a.last() == rest.last() && b.last() == rest.last() && c.last() == rest.last());
    text::law_trim(e, a, e);
    text::law_trim(e, b, e);
    text::law_trim(e, c, e);
    assert(a.subrange(0, 7) =~= "http://"@);
    assert(b.subrange(0, 8) =~= "https://"@);
    assert("http://"@[0] == 'h' && "https://"@[0] == 'h');
    assert(!text::starts(c, "http://"@)) by {
        if text::starts(c, "http://"@) {
            assert(c.subrange(0, 7)[0] == c[0]);
        }
    }
    assert(!text::starts(c, "https://"@)) by {
        if text::starts(c, "https://"@) {
            assert(c.subrange(0, 8)[0] == c[0]);
        }
    }
    let w = seq![' ', '\t'];
    text::law_trim(w, e, e);
    assert(w + e + e =~= w);
}

/// A check leaves the node itself as it was, and a check that begins forgets the last one.
pub proof fn law_check_keeps_node(n: VmView, r: HealthCheckResult)
    ensures
        checked(n, r).node == n.node,
        checked(n, r).health == r.status,
        checked(n, r).latency_ms == r.latency_ms,
        checking(n).node == n.node,
        node::is_notice(n.node.name) ==> checking(n) == n,
        !node::is_notice(n.node.name) ==> checking(n).health is Checking && checking(n).latency_ms
            is None,
        unchecked(n.node).node == n.node,
        unchecked(n.node).health is Idle,
        unchecked(n.node).latency_ms is None,
{
}

} // verus!
