//! What the program remembers between runs, and the flags it is started with.

use vstd::prelude::*;

use crate::json;
use crate::json::{Json, JsonView, Scalar};
use crate::text;

verus! {

#[derive(Clone, Copy, Debug, PartialEq, Eq, Structural)]
pub enum UiMode {
    Off,
    Proxy,
    Enhance,
}

/// A node that was chosen, by what it is found again with.
#[derive(Debug, PartialEq, Eq)]
pub struct SavedNode {
    pub name: String,
    pub server: String,
    pub port: u16,
}

#[derive(Debug, PartialEq, Eq)]
pub struct UiState {
    pub mode: UiMode,
    pub node: Option<SavedNode>,
}

impl Default for UiState {
    fn default() -> (r: Self)
        ensures
            r.mode == UiMode::Off,
            r.node is None,
    {
        UiState { mode: UiMode::Off, node: None }
    }
}

impl UiState {
    /// The remembered state; switched off where there is none that can be read.
    pub fn load(stored: Option<UiState>) -> (r: Self)
        ensures
            match stored {
                Some(s) => r == s,
                None => r.mode == UiMode::Off && r.node is None,
            },
    {
        match stored {
            Some(s) => s,
            None => UiState::default(),
        }
    }
}

// ---- the file ----
/// A state as it is kept: the mode, and name, server and port of the node.
#[verifier::ext_equal]
pub struct StateView {
    pub mode: UiMode,
    pub node: Option<(Seq<char>, Seq<char>, u16)>,
}

impl View for UiState {
    type V = StateView;

    open spec fn view(&self) -> StateView {
        StateView {
            mode: self.mode,
            node: match self.node {
                Some(n) => Some((n.name@, n.server@, n.port)),
                None => None,
            },
        }
    }
}

/// The name of a mode.
pub open spec fn mode_name(m: UiMode) -> Seq<char> {
    match m {
        UiMode::Off => "off"@,
        UiMode::Proxy => "proxy"@,
        UiMode::Enhance => "enhance"@,
    }
}

/// What the file holds of a state.
pub open spec fn state_text(s: StateView) -> Seq<char> {
    "{\"mode\":"@ + json::json_literal(mode_name(s.mode)) + ",\"node\":"@ + (match s.node {
        None => "null"@,
        Some((name, server, port)) => "{\"name\":"@ + json::json_literal(name) + ",\"server\":"@
            + json::json_literal(server) + ",\"port\":"@ + text::dec(port as nat) + "}"@,
    }) + "}"@
}

/// The mode with a name.
spec fn mode_of(name: Seq<char>) -> Option<UiMode> {
    if name == "off"@ {
        Some(UiMode::Off)
    } else if name == "proxy"@ {
        Some(UiMode::Proxy)
    } else if name == "enhance"@ {
        Some(UiMode::Enhance)
    } else {
        None
    }
}

/// The state that a document holds, if it is one of a state.
spec fn document_state(v: JsonView) -> Option<StateView> {
    let mode = match json::text_at(v, "mode"@) {
        Some(n) => mode_of(n),
        None => None,
    };
    match (mode, v.entry("node"@)) {
        (Some(mode), Some(JsonView::Null)) => Some(StateView { mode, node: None }),
        (Some(mode), Some(n)) => match (json::text_at(n, "name"@), json::text_at(n, "server"@)) {
            (Some(name), Some(server)) => {
                let port = json::unsigned_at(n, "port"@);
                if port <= 0xffff {
                    Some(StateView { mode, node: Some((name, server, port as u16)) })
                } else {
                    None
                }
            },
            _ => None,
        },
        _ => None,
    }
}

fn read_document(v: &Json) -> (r: Option<UiState>)
    ensures
        (match r {
            Some(s) => Some(s@),
            None => None,
        }) == document_state(v@),
{
    let mode = match json::jstr(v, "mode") {
        None => return None,
        Some(n) => {
            let c = text::chars_of(n.as_str());
            if text::is(c.as_slice(), "off") {
                UiMode::Off
            } else if text::is(c.as_slice(), "proxy") {
                UiMode::Proxy
            } else if text::is(c.as_slice(), "enhance") {
                UiMode::Enhance
            } else {
                return None;
            }
        },
    };
    let n = match v.get("node") {
        None => return None,
        Some(Json::Null) => return Some(UiState { mode, node: None }),
        Some(n) => n,
    };
    let port: u64 = json::junsigned(n, "port");
    match (json::jstr(n, "name"), json::jstr(n, "server")) {
        (Some(name), Some(server)) => {
            if port > 0xffff {
                return None;
            }
            Some(UiState { mode, node: Some(SavedNode { name, server, port: port as u16 }) })
        },
        _ => None,
    }
}

proof fn lemma_modes(m: UiMode)
    ensures
        mode_of(mode_name(m)) == Some(m),
{
    reveal_strlit("off");
    reveal_strlit("proxy");
    reveal_strlit("enhance");
    assert("off"@.len() == 3 && "proxy"@.len() == 5 && "enhance"@.len() == 7);
}

spec fn node_members(name: Seq<char>, server: Seq<char>, port: u16) -> Seq<(Seq<char>, Scalar)> {
    seq![
        ("name"@, Scalar::Text(name)),
        ("server"@, Scalar::Text(server)),
        ("port"@, Scalar::Number(port as u64)),
    ]
}

proof fn lemma_node_is_object(name: Seq<char>, server: Seq<char>, port: u16)
    ensures
        json::object_text(node_members(name, server, port)) == "{\"name\":"@ + json::json_literal(
            name,
        ) + ",\"server\":"@ + json::json_literal(server) + ",\"port\":"@ + text::dec(port as nat)
            + "}"@,
        json::plain_keys(node_members(name, server, port)),
{
    let m = node_members(name, server, port);
    reveal_strlit("name");
    reveal_strlit("server");
    reveal_strlit("port");
    reveal_strlit("{");
    reveal_strlit("}");
    reveal_strlit(",");
    reveal_strlit("\"");
    reveal_strlit("\":");
    reveal_strlit("{\"name\":");
    reveal_strlit(",\"server\":");
    reveal_strlit(",\"port\":");
    reveal_with_fuel(json::members_text, 4);
    assert(m.drop_last() =~= seq![m[0], m[1]]);
    assert(m.drop_last().drop_last() =~= seq![m[0]]);
    assert("{"@ + json::member_text(m[0]) =~= "{\"name\":"@ + json::json_literal(name));
    assert(","@ + json::member_text(m[1]) =~= ",\"server\":"@ + json::json_literal(server));
    assert(","@ + json::member_text(m[2]) =~= ",\"port\":"@ + text::dec(port as nat));
    assert(json::object_text(m) =~= "{\"name\":"@ + json::json_literal(name) + ",\"server\":"@
        + json::json_literal(server) + ",\"port\":"@ + text::dec(port as nat) + "}"@);
    assert("name"@[0] != "server"@[0]);
    assert("name"@[0] != "port"@[0]);
    assert("server"@[0] != "port"@[0]);
}

/// A document that was read from the text of a state holds that state.
proof fn lemma_text_holds_state(s: StateView, parsed: Option<JsonView>)
    requires
        forall|m: Seq<(Seq<char>, Scalar)>|
            state_text(s) == #[trigger] json::object_text(m) && json::plain_keys(m) ==> parsed
                is Some && json::is_object(parsed->0, m),
        forall|m: Seq<(Seq<char>, Scalar)>, key: Seq<char>, inner: Seq<(Seq<char>, Scalar)>|
            state_text(s) == #[trigger] json::nested_text(m, key, inner) && m.len() > 0
                && json::plain_keys(m.push((key, Scalar::Null))) && json::plain_keys(inner)
                ==> parsed is Some && json::is_object(parsed->0, m) && parsed->0.entry(key) is Some
                && parsed->0.entry(key)->0 is Object && json::is_object(
                parsed->0.entry(key)->0,
                inner,
            ),
    ensures
        parsed is Some,
        document_state(parsed->0) == Some(s),
{
    let first = ("mode"@, Scalar::Text(mode_name(s.mode)));
    lemma_modes(s.mode);
    reveal_strlit("mode");
    reveal_strlit("node");
    reveal_strlit("null");
    reveal_strlit("{");
    reveal_strlit("}");
    reveal_strlit(",");
    reveal_strlit("\"");
    reveal_strlit("\":");
    reveal_strlit(",\"");
    reveal_strlit("{\"mode\":");
    reveal_strlit(",\"node\":");
    reveal_with_fuel(json::members_text, 3);
    assert("mode"@[0] != "node"@[0]);
    assert("{"@ + json::member_text(first) =~= "{\"mode\":"@ + json::json_literal(
        mode_name(s.mode),
    ));
    match s.node {
        None => {
            let m = seq![first, ("node"@, Scalar::Null)];
            assert(m.drop_last() =~= seq![first]);
            assert(json::object_text(m) =~= state_text(s));
            assert(json::plain_keys(m));
            assert(json::is_object(parsed->0, m));
            assert(m[0].0 == "mode"@ && m[1].0 == "node"@);
        },
        Some((name, server, port)) => {
            let m = seq![first];
            let inner = node_members(name, server, port);
            lemma_node_is_object(name, server, port);
            assert(json::members_text(m) == json::member_text(first));
            assert(json::nested_text(m, "node"@, inner) =~= state_text(s));
            assert(m.push(("node"@, Scalar::Null)) =~= seq![first, ("node"@, Scalar::Null)]);
            assert(json::plain_keys(m.push(("node"@, Scalar::Null))));
            let n = parsed->0.entry("node"@)->0;
            assert(json::is_object(parsed->0, m) && json::is_object(n, inner));
            assert(m[0].0 == "mode"@);
            assert(inner[0].0 == "name"@ && inner[1].0 == "server"@ && inner[2].0 == "port"@);
        },
    }
}

impl UiState {
    /// What the file holds of the state.
    pub fn save(&self) -> (r: String)
        ensures
            r@ == state_text(self@),
    {
        let mode = match self.mode {
            UiMode::Off => "off",
            UiMode::Proxy => "proxy",
            UiMode::Enhance => "enhance",
        };
        let mut out = text::chars_of("{\"mode\":");
        let m = json::json_string(mode);
        text::append_str(&mut out, m.as_str());
        text::append_str(&mut out, ",\"node\":");
        match &self.node {
            None => {
                text::append_str(&mut out, "null");
            },
            Some(n) => {
                let ghost head = out@;
                text::append_str(&mut out, "{\"name\":");
                let a = json::json_string(n.name.as_str());
                text::append_str(&mut out, a.as_str());
                text::append_str(&mut out, ",\"server\":");
                let b = json::json_string(n.server.as_str());
                text::append_str(&mut out, b.as_str());
                text::append_str(&mut out, ",\"port\":");
                let d = text::format_dec(n.port as u64);
                text::append(&mut out, d.as_slice());
                text::append_str(&mut out, "}");
                assert(out@ =~= head + ("{\"name\":"@ + json::json_literal(n.name@)
                    + ",\"server\":"@ + json::json_literal(n.server@) + ",\"port\":"@ + text::dec(
                    n.port as nat,
                ) + "}"@));
            },
        }
        text::append_str(&mut out, "}");
        text::string_of(out.as_slice())
    }

    /// The state whose text this is, as `save` writes it; nothing where it is that of
    /// none.
    pub fn read_saved(text: &str) -> (r: Option<UiState>)
        ensures
            match r {
                Some(s) => text@ == state_text(s@),
                None => forall|s: StateView| text@ != #[trigger] state_text(s),
            },
            forall|s: StateView| text@ == #[trigger] state_text(s) ==> r is Some && r->0@ == s,
    {
        let parsed = json::parse_json(text);
        proof {
            assert forall|s: StateView| text@ == #[trigger] state_text(s) implies parsed is Some
                && document_state(parsed->0@) == Some(s) by {
                lemma_text_holds_state(s, json::opt_json(parsed));
            }
        }
        let found = match &parsed {
            Some(v) => read_document(v),
            None => None,
        };
        match found {
            None => None,
            Some(s) => {
                let again = s.save();
                let a = text::chars_of(again.as_str());
                let b = text::chars_of(text);
                if text::same(a.as_slice(), b.as_slice()) {
                    Some(s)
                } else {
                    None
                }
            },
        }
    }

    /// The state that the file gives: the one that `save` wrote into it; for a text that
    /// another hand wrote, what was made of it, if anything; else, as without a file,
    /// switched off.
    pub fn load_from(file: Option<&str>, made: Option<UiState>) -> (r: Self)
        ensures
            file is None ==> r.mode == UiMode::Off && r.node is None,
            forall|s: StateView|
                file is Some && file->0@ == #[trigger] state_text(s) ==> r@ == s,
            file is Some && (forall|s: StateView| file->0@ != #[trigger] state_text(s)) ==> (
            match made {
                Some(m) => r == m,
                None => r.mode == UiMode::Off && r.node is None,
            }),
    {
        match file {
            None => UiState::load(None),
            Some(t) => match Self::read_saved(t) {
                Some(s) => s,
                None => UiState::load(made),
            },
        }
    }
}

impl UiState {
    /// The state that a program with flags begins with.
    pub fn launched(self, flags: &LaunchFlags) -> (r: Self)
        ensures
            r.node == self.node,
            r.mode == (if flags.start_enhance {
                UiMode::Enhance
            } else {
                self.mode
            }),
    {
        let mode = if flags.start_enhance {
            UiMode::Enhance
        } else {
            self.mode
        };
        UiState { mode, node: self.node }
    }

    /// Whether the program has to be started again with more rights: for the enhanced
    /// mode, on Windows, by one who is no administrator.
    pub fn needs_elevation(&self, windows: bool, administrator: bool) -> (r: bool)
        ensures
            r == (self.mode == UiMode::Enhance && windows && !administrator),
    {
        self.mode == UiMode::Enhance && windows && !administrator
    }
}

/// Flags of a program that was started again with more rights: it begins with
/// the enhanced mode and waits for another process to end.
#[derive(Clone, Copy, Debug, PartialEq, Eq)]
pub struct LaunchFlags {
    pub start_enhance: bool,
    pub wait_pid: Option<u32>,
}

/// The process id that the last of the first `n` arguments that names one
/// gives, if it is a number.
pub open spec fn pid_of(args: Seq<Seq<char>>, n: int) -> Option<int>
    decreases n,
{
    if n <= 0 {
        None
    } else if args[n - 1] == "--start-enhance"@ {
        pid_of(args, n - 1)
    } else {
        match text::after_prefix(args[n - 1], "--wait-pid="@) {
            Some(p) => text::unsigned_value(p, 0xffff_ffff),
            None => pid_of(args, n - 1),
        }
    }
}

pub open spec fn arg_views(v: Seq<&str>) -> Seq<Seq<char>> {
    Seq::new(v.len(), |i: int| v[i]@)
}

impl LaunchFlags {
    pub fn from_args(args: &[&str]) -> (r: Self)
        ensures
            r.start_enhance == (exists|i: int|
                0 <= i < args@.len() && (#[trigger] args@[i])@ == "--start-enhance"@),
            (match r.wait_pid {
                Some(p) => Some(p as int),
                None => None,
            }) == pid_of(arg_views(args@), args@.len() as int),
    {
        let ghost vs = arg_views(args@);
        let mut flags = LaunchFlags { start_enhance: false, wait_pid: None };
        let mut i: usize = 0;
        while i < args.len()
            invariant
                i <= args@.len(),
                vs == arg_views(args@),
                flags.start_enhance == (exists|j: int|
                    0 <= j < i && (#[trigger] args@[j])@ == "--start-enhance"@),
                (match flags.wait_pid {
                    Some(p) => Some(p as int),
                    None => None,
                }) == pid_of(vs, i as int),
            decreases args@.len() - i,
        {
            let c = text::chars_of(args[i]);
            assert(vs[i as int] == args@[i as int]@);
            if text::is(c.as_slice(), "--start-enhance") {
                flags.start_enhance = true;
            } else if let Some(p) = text::strip_prefix(c.as_slice(), "--wait-pid=") {
                flags.wait_pid = match text::parse_unsigned(p, 0xffff_ffff) {
                    Some(n) => Some(n as u32),
                    None => None,
                };
            }
            i += 1;
        }
        flags
    }

    /// The arguments of a program that is started again with more rights.
    pub fn elevate_relaunch_args(pid: u32) -> (r: String)
        ensures
            r@ == "--start-enhance --wait-pid="@ + text::dec(pid as nat),
    {
        let mut out = text::chars_of("--start-enhance --wait-pid=");
        let d = text::format_dec(pid as u64);
        text::append(&mut out, d.as_slice());
        text::string_of(out.as_slice())
    }
}

/// The arguments of a restart are read as: enhanced mode, and the process to
/// wait for.
pub proof fn law_relaunch_args_read_back(pid: u32)
    ensures
        ({
            let args = seq!["--start-enhance"@, "--wait-pid="@ + text::dec(pid as nat)];
            pid_of(args, 2) == Some(pid as int)
        }),
{
    let d = text::dec(pid as nat);
    let a = "--wait-pid="@ + d;
    let args = seq!["--start-enhance"@, a];
    reveal_strlit("--start-enhance");
    reveal_strlit("--wait-pid=");
    text::law_dec_reads_back(pid as nat);
    assert(a[2] == 'w');
    assert("--start-enhance"@[2] == 's');
    assert(a.subrange(0, "--wait-pid="@.len() as int) =~= "--wait-pid="@);
    assert(a.skip("--wait-pid="@.len() as int) =~= d);
    assert(text::is_digit(d[0]));
    assert(text::unsigned_value(d, 0xffff_ffff) == Some(pid as int));
}

// ---- laws ----
/// Every state has a text of its own file: the mode by its name, and the node by its name,
/// server and port.
pub proof fn law_state_layout(name: Seq<char>, server: Seq<char>, port: u16)
    ensures
        state_text(StateView { mode: UiMode::Off, node: None }) == "{\"mode\":"@
            + json::json_literal("off"@) + ",\"node\":"@ + "null"@ + "}"@,
        state_text(StateView { mode: UiMode::Proxy, node: None }) == "{\"mode\":"@
            + json::json_literal("proxy"@) + ",\"node\":"@ + "null"@ + "}"@,
        state_text(StateView { mode: UiMode::Enhance, node: Some((name, server, port)) })
            == "{\"mode\":"@ + json::json_literal("enhance"@) + ",\"node\":"@ + ("{\"name\":"@
            + json::json_literal(name) + ",\"server\":"@ + json::json_literal(server)
            + ",\"port\":"@ + text::dec(port as nat) + "}"@) + "}"@,
{
}

} // verus!
