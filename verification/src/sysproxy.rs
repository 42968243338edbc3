//! The proxy setting of the desktop: what is written, how it is told whose it
//! is, and how the former setting is kept and brought back.

use vstd::prelude::*;

use crate::codec;
use crate::json;
use crate::json::{Json, Scalar};
use crate::text;

verus! {

/// Destinations that the Windows setting leaves out.
pub const BYPASS: &'static str =
    "localhost;127.*;::1;[::1];10.*;172.16.*;172.17.*;172.18.*;172.19.*;172.20.*;172.21.*;172.22.*;172.23.*;172.24.*;172.25.*;172.26.*;172.27.*;172.28.*;172.29.*;172.30.*;172.31.*;192.168.*;169.254.*;<local>;<loopback>";

/// The server that the setting names.
pub const OWN_SERVER: &'static str = "127.0.0.1:7887";

// ---- Windows: the registry values ----
/// Whether the values are those of this program.
pub fn currently_ours(enable: Option<u32>, server: Option<&str>) -> (r: bool)
    ensures
        r == (enable == Some(1u32) && server is Some && text::has(server->0@, OWN_SERVER@)),
{
    match enable {
        Some(e) => if e == 1 {
            match server {
                Some(s) => {
                    let c = text::chars_of(s);
                    text::contains(c.as_slice(), OWN_SERVER)
                },
                None => {
                    proof {
                        reveal_strlit("127.0.0.1:7887");
                    }
                    false
                },
            }
        } else {
            false
        },
        None => false,
    }
}

/// What is told of a setting that another program took over.
pub open spec fn stolen_text(enable: nat, server: Seq<char>) -> Seq<char> {
    if text::has(server, ":7890"@) {
        "系统代理被 Clash Party 覆盖. 请先退出 Clash Party, 再开代理模式."@
    } else {
        "系统代理被其他程序覆盖 (enable="@ + text::dec(enable) + " server="@ + server + ")"@
    }
}

pub fn stolen_msg(enable: u32, server: &str) -> (r: String)
    ensures
        r@ == stolen_text(enable as nat, server@),
{
    let c = text::chars_of(server);
    if text::contains(c.as_slice(), ":7890") {
        "系统代理被 Clash Party 覆盖. 请先退出 Clash Party, 再开代理模式.".to_owned()
    } else {
        let mut out = text::chars_of("系统代理被其他程序覆盖 (enable=");
        let d = text::format_dec(enable as u64);
        text::append(&mut out, d.as_slice());
        text::append_str(&mut out, " server=");
        text::append(&mut out, c.as_slice());
        text::append_str(&mut out, ")");
        text::string_of(out.as_slice())
    }
}

/// The former values as they are kept.
pub open spec fn undo_text(enable: nat, server: Seq<char>, bypass: Seq<char>) -> Seq<char> {
    "{\"enable\":"@ + text::dec(enable) + ",\"server\":"@ + json::json_literal(server)
        + ",\"override\":"@ + json::json_literal(bypass) + "}"@
}

pub fn save_undo(enable: u32, server: &str, bypass: &str) -> (r: String)
    ensures
        r@ == undo_text(enable as nat, server@, bypass@),
{
    let mut out = text::chars_of("{\"enable\":");
    let d = text::format_dec(enable as u64);
    text::append(&mut out, d.as_slice());
    text::append_str(&mut out, ",\"server\":");
    let a = json::json_string(server);
    text::append_str(&mut out, a.as_str());
    text::append_str(&mut out, ",\"override\":");
    let b = json::json_string(bypass);
    text::append_str(&mut out, b.as_str());
    text::append_str(&mut out, "}");
    text::string_of(out.as_slice())
}

/// Registry values: whether the proxy is on, its server and what it leaves out.
#[derive(Debug)]
pub struct ProxyValues {
    pub enable: u32,
    pub server: String,
    pub bypass: String,
}

pub open spec fn or_empty(o: Option<Seq<char>>) -> Seq<char> {
    match o {
        Some(s) => s,
        None => Seq::empty(),
    }
}

/// The values that a kept document holds; what is not there is empty.
pub fn values_of_document(v: &Json) -> (r: ProxyValues)
    ensures
        r.enable == json::int_at(v@, "enable"@) as u32,
        r.server@ == or_empty(json::text_at(v@, "server"@)),
        r.bypass@ == or_empty(json::text_at(v@, "override"@)),
{
    let enable: u32 = #[verifier::truncate] (json::jint(v, "enable") as u32);
    let server = match json::jstr(v, "server") {
        Some(s) => s,
        None => String::new(),
    };
    let bypass = match json::jstr(v, "override") {
        Some(s) => s,
        None => String::new(),
    };
    ProxyValues { enable, server, bypass }
}

/// The entries of what is kept.
spec fn undo_members(enable: u32, server: Seq<char>, bypass: Seq<char>) -> Seq<
    (Seq<char>, Scalar),
> {
    seq![
        ("enable"@, Scalar::Number(enable as u64)),
        ("server"@, Scalar::Text(server)),
        ("override"@, Scalar::Text(bypass)),
    ]
}

proof fn lemma_undo_is_object(enable: u32, server: Seq<char>, bypass: Seq<char>)
    ensures
        undo_text(enable as nat, server, bypass) == json::object_text(
            undo_members(enable, server, bypass),
        ),
        json::plain_keys(undo_members(enable, server, bypass)),
{
    let m = undo_members(enable, server, bypass);
    reveal_strlit("enable");
    reveal_strlit("server");
    reveal_strlit("override");
    reveal_strlit("{");
    reveal_strlit("}");
    reveal_strlit(",");
    reveal_strlit("\"");
    reveal_strlit("\":");
    reveal_strlit("{\"enable\":");
    reveal_strlit(",\"server\":");
    reveal_strlit(",\"override\":");
    reveal_with_fuel(json::members_text, 4);
    assert(m.drop_last() =~= seq![m[0], m[1]]);
    assert(m.drop_last().drop_last() =~= seq![m[0]]);
    assert("{"@ + json::member_text(m[0]) =~= "{\"enable\":"@ + text::dec(enable as nat));
    assert(","@ + json::member_text(m[1]) =~= ",\"server\":"@ + json::json_literal(server));
    assert(","@ + json::member_text(m[2]) =~= ",\"override\":"@ + json::json_literal(bypass));
    assert(undo_text(enable as nat, server, bypass) =~= json::object_text(m));
    assert("enable"@[0] != "server"@[0]);
    assert("enable"@[0] != "override"@[0]);
    assert("server"@[0] != "override"@[0]);
}

/// Reads the kept values: those that `save_undo` keeps are read back.
pub fn restore_undo(kept: &str) -> (r: Option<ProxyValues>)
    ensures
        match json::json_value(kept@) {
            Some(v) => r is Some && r->0.enable == json::int_at(v, "enable"@) as u32
                && r->0.server@ == or_empty(json::text_at(v, "server"@)) && r->0.bypass@
                == or_empty(json::text_at(v, "override"@)),
            None => r is None,
        },
        forall|enable: u32, server: Seq<char>, bypass: Seq<char>|
            kept@ == #[trigger] undo_text(enable as nat, server, bypass) ==> r is Some
                && r->0.enable == enable && r->0.server@ == server && r->0.bypass@ == bypass,
{
    let parsed = json::parse_json(kept);
    proof {
        assert forall|enable: u32, server: Seq<char>, bypass: Seq<char>|
            kept@ == #[trigger] undo_text(enable as nat, server, bypass) implies parsed is Some
            && json::int_at(parsed->0@, "enable"@) == enable && json::text_at(
            parsed->0@,
            "server"@,
        ) == Some(server) && json::text_at(parsed->0@, "override"@) == Some(bypass) by {
            let m = undo_members(enable, server, bypass);
            lemma_undo_is_object(enable, server, bypass);
            assert(json::is_object(parsed->0@, m));
            assert(m[0].0 == "enable"@ && m[1].0 == "server"@ && m[2].0 == "override"@);
        }
    }
    match parsed {
        Some(v) => Some(values_of_document(&v)),
        None => None,
    }
}

// ---- Windows: the connection settings ----
/// The version of settings: that of the former ones, where it is plausible.
pub open spec fn blob_version(old: Option<Seq<u8>>) -> int {
    match old {
        Some(o) => if o.len() >= 4 && 0x40 <= codec::le32(o[0], o[1], o[2], o[3]) <= 0x50 {
            codec::le32(o[0], o[1], o[2], o[3])
        } else {
            0x47
        },
        None => 0x47,
    }
}

/// The counter of settings: one more than that of the former ones.
pub open spec fn blob_counter(old: Option<Seq<u8>>) -> int {
    match old {
        Some(o) => if o.len() >= 8 {
            (codec::le32(o[4], o[5], o[6], o[7]) + 1) % 0x1_0000_0000
        } else {
            1
        },
        None => 1,
    }
}

/// The settings without the zeros at their end.
pub open spec fn blob_head(
    enable: bool,
    server: Seq<u8>,
    bypass: Seq<u8>,
    old: Option<Seq<u8>>,
) -> Seq<u8> {
    codec::le32_bytes(blob_version(old)) + codec::le32_bytes(blob_counter(old))
        + codec::le32_bytes(
        if enable {
            3
        } else {
            1
        },
    ) + codec::le32_bytes(server.len() as int % 0x1_0000_0000) + server + codec::le32_bytes(
        bypass.len() as int % 0x1_0000_0000,
    ) + bypass + codec::le32_bytes(0)
}

/// The length of settings: no less than that of the former ones, and 32 bytes
/// more than what they hold.
pub open spec fn blob_len(head: int, old: Option<Seq<u8>>) -> int {
    let least = match old {
        Some(o) => o.len() as int,
        None => 56,
    };
    if least > head + 32 {
        least
    } else {
        head + 32
    }
}

pub open spec fn former(old: Option<&[u8]>) -> Option<Seq<u8>> {
    match old {
        Some(o) => Some(o@),
        None => None,
    }
}

fn next_version(old: Option<&[u8]>) -> (r: u32)
    ensures
        r == blob_version(former(old)),
{
    match old {
        Some(b) => {
            if b.len() >= 4 {
                let v: u32 = codec::read_le32(b[0], b[1], b[2], b[3]);
                if v >= 0x40 && v <= 0x50 {
                    return v;
                }
            }
            0x47
        },
        None => 0x47,
    }
}

fn next_counter(old: Option<&[u8]>) -> (r: u32)
    ensures
        r == blob_counter(former(old)),
{
    match old {
        Some(b) => {
            if b.len() >= 8 {
                let c: u32 = codec::read_le32(b[4], b[5], b[6], b[7]);
                if c == 0xffff_ffff {
                    0
                } else {
                    c + 1
                }
            } else {
                1
            }
        },
        None => 1,
    }
}

/// Connection settings in binary.
pub fn build_connection_blob(
    enable: bool,
    server: &str,
    bypass: &str,
    old: Option<&[u8]>,
) -> (r: Vec<u8>)
    requires
        vstd::utf8::encode_utf8(server@).len() + vstd::utf8::encode_utf8(bypass@).len() + 56
            <= usize::MAX,
    ensures
        ({
            let head = blob_head(
                enable,
                vstd::utf8::encode_utf8(server@),
                vstd::utf8::encode_utf8(bypass@),
                former(old),
            );
            r@ == head + Seq::new(
                (blob_len(head.len() as int, former(old)) - head.len()) as nat,
                |i: int| 0u8,
            )
        }),
{
    let version: u32 = next_version(old);
    let counter: u32 = next_counter(old);
    let least: usize = match old {
        Some(b) => b.len(),
        None => 56,
    };
    let flags: u32 = if enable {
        3
    } else {
        1
    };
    let proxy = codec::bytes_of(server);
    let skip = codec::bytes_of(bypass);
    let m: u32 = (proxy.len() as u64 % 0x1_0000_0000) as u32;
    let k: u32 = (skip.len() as u64 % 0x1_0000_0000) as u32;
    let mut out: Vec<u8> = Vec::new();
    codec::push_le32(&mut out, version);
    assert(out@ =~= codec::le32_bytes(version as int));
    codec::push_le32(&mut out, counter);
    codec::push_le32(&mut out, flags);
    codec::push_le32(&mut out, m);
    codec::append(&mut out, proxy.as_slice());
    codec::push_le32(&mut out, k);
    codec::append(&mut out, skip.as_slice());
    codec::push_le32(&mut out, 0);
    assert(out@ == blob_head(enable, proxy@, skip@, former(old)));
    let n: usize = out.len();
    let total: usize = if least > n + 32 {
        least
    } else {
        n + 32
    };
    codec::append_zeros(&mut out, total - n);
    out
}

// ---- Windows: switching ----
/// Where a switch of the setting stands.
#[derive(Clone, Copy, Debug, PartialEq, Eq, Structural)]
pub enum Phase {
    Idle,
    Applying,
    Committing,
    Checking,
    CommittingAgain,
    CheckingAgain,
    CheckingOff,
    Restoring,
    CheckingRestored,
    Clearing,
    CheckingOrphan,
    RestoringOrphan,
    CheckingOrphanRestored,
    ClearingOrphan,
}

#[derive(Clone, Copy, Debug, PartialEq, Eq, Structural)]
pub enum SwitchEvent {
    TurnOn,
    TurnOff,
    Recover,
    /// What was asked for is done.
    Done,
    /// What was asked for failed.
    Failed,
    /// Whether the setting is that of this program.
    Ours(bool),
}

#[derive(Clone, Copy, Debug, PartialEq, Eq, Structural)]
pub enum SwitchAction {
    /// Keep the former values, then write the own ones.
    SaveAndApply,
    /// Write the own values.
    Commit,
    /// Tell, after a while, whose the setting is.
    CheckLater,
    /// Tell whose the setting is.
    Check,
    /// Bring the former values back.
    Restore,
    /// Switch the setting off.
    ApplyOff,
    /// Forget the former values.
    RemoveUndo,
    /// Tell the desktop that the setting changed; then the switch is done.
    Notify,
    /// The switch is done.
    Finish,
    /// The switch failed.
    Fail,
    /// Another program took the setting over.
    Stolen,
    /// The event does not belong here.
    Ignore,
}

/// The state of the Windows setting: whether the own values were written,
/// whether they are kept up, and where a switch stands.
#[derive(Clone, Copy, Debug, PartialEq, Eq, Structural)]
pub struct ProxySwitch {
    pub applied: bool,
    pub keepalive: bool,
    pub phase: Phase,
}

impl ProxySwitch {
    pub open spec fn at(self, phase: Phase) -> ProxySwitch {
        ProxySwitch { applied: self.applied, keepalive: self.keepalive, phase }
    }

    pub open spec fn idle(applied: bool, keepalive: bool) -> ProxySwitch {
        ProxySwitch { applied, keepalive, phase: Phase::Idle }
    }

    /// Whether what is committed or checked while it is turned on has been applied.
    pub open spec fn sound(self) -> bool {
        match self.phase {
            Phase::Committing | Phase::Checking | Phase::CommittingAgain | Phase::CheckingAgain =>
                self.applied,
            _ => true,
        }
    }

    /// What an event leads to.
    pub open spec fn next(self, e: SwitchEvent) -> (ProxySwitch, SwitchAction) {
        match (self.phase, e) {
            (Phase::Idle, SwitchEvent::TurnOn) => if self.applied {
                (self.at(Phase::Committing), SwitchAction::Commit)
            } else {
                (self.at(Phase::Applying), SwitchAction::SaveAndApply)
            },
            (Phase::Applying, SwitchEvent::Done) => (
                ProxySwitch { applied: true, keepalive: self.keepalive, phase: Phase::Committing },
                SwitchAction::Commit,
            ),
            (Phase::Committing, SwitchEvent::Done) => (
                self.at(Phase::Checking),
                SwitchAction::CheckLater,
            ),
            (Phase::Checking, SwitchEvent::Ours(ours)) => if ours {
                (self.at(Phase::CheckingAgain), SwitchAction::Check)
            } else {
                (self.at(Phase::CommittingAgain), SwitchAction::Commit)
            },
            (Phase::CommittingAgain, SwitchEvent::Done) => (
                self.at(Phase::CheckingAgain),
                SwitchAction::Check,
            ),
            (Phase::CheckingAgain, SwitchEvent::Ours(ours)) => if ours {
                (ProxySwitch::idle(self.applied, true), SwitchAction::Finish)
            } else {
                (ProxySwitch::idle(false, false), SwitchAction::Stolen)
            },
            (Phase::Idle, SwitchEvent::TurnOff) => if self.applied {
                (
                    ProxySwitch { applied: true, keepalive: false, phase: Phase::Restoring },
                    SwitchAction::Restore,
                )
            } else {
                (
                    ProxySwitch { applied: false, keepalive: false, phase: Phase::CheckingOff },
                    SwitchAction::Check,
                )
            },
            (Phase::CheckingOff, SwitchEvent::Ours(ours)) => if ours {
                (self.at(Phase::Restoring), SwitchAction::Restore)
            } else {
                (self.at(Phase::Idle), SwitchAction::Notify)
            },
            (Phase::Restoring, SwitchEvent::Done) => (
                self.at(Phase::CheckingRestored),
                SwitchAction::Check,
            ),
            (Phase::CheckingRestored, SwitchEvent::Ours(ours)) => if ours {
                (self.at(Phase::Clearing), SwitchAction::ApplyOff)
            } else {
                (ProxySwitch::idle(false, self.keepalive), SwitchAction::Notify)
            },
            (Phase::Clearing, SwitchEvent::Done) => (
                ProxySwitch::idle(false, self.keepalive),
                SwitchAction::Notify,
            ),
            (Phase::Idle, SwitchEvent::Recover) => (
                ProxySwitch {
                    applied: self.applied,
                    keepalive: false,
                    phase: Phase::CheckingOrphan,
                },
                SwitchAction::Check,
            ),
            (Phase::CheckingOrphan, SwitchEvent::Ours(ours)) => if ours {
                (
                    ProxySwitch {
                        applied: true,
                        keepalive: self.keepalive,
                        phase: Phase::RestoringOrphan,
                    },
                    SwitchAction::Restore,
                )
            } else {
                (ProxySwitch::idle(false, self.keepalive), SwitchAction::RemoveUndo)
            },
            (Phase::RestoringOrphan, SwitchEvent::Done) => (
                self.at(Phase::CheckingOrphanRestored),
                SwitchAction::Check,
            ),
            (Phase::CheckingOrphanRestored, SwitchEvent::Ours(ours)) => if ours {
                (self.at(Phase::ClearingOrphan), SwitchAction::ApplyOff)
            } else {
                (ProxySwitch::idle(false, self.keepalive), SwitchAction::Notify)
            },
            (Phase::ClearingOrphan, SwitchEvent::Done) => (
                ProxySwitch::idle(false, self.keepalive),
                SwitchAction::Notify,
            ),
            (Phase::ClearingOrphan, SwitchEvent::Failed) => (
                ProxySwitch::idle(false, self.keepalive),
                SwitchAction::Notify,
            ),
            (Phase::Idle, _) => (self, SwitchAction::Ignore),
            (_, SwitchEvent::Failed) => (self.at(Phase::Idle), SwitchAction::Fail),
            _ => (self, SwitchAction::Ignore),
        }
    }

    pub fn new() -> (r: Self)
        ensures
            r == ProxySwitch::idle(false, false),
            r.sound(),
    {
        ProxySwitch { applied: false, keepalive: false, phase: Phase::Idle }
    }

    pub fn step(&mut self, e: SwitchEvent) -> (r: SwitchAction)
        ensures
            (*final(self), r) == old(self).next(e),
            old(self).sound() ==> final(self).sound(),
    {
        match (self.phase, e) {
            (Phase::Idle, SwitchEvent::TurnOn) => {
                if self.applied {
                    self.phase = Phase::Committing;
                    SwitchAction::Commit
                } else {
                    self.phase = Phase::Applying;
                    SwitchAction::SaveAndApply
                }
            },
            (Phase::Applying, SwitchEvent::Done) => {
                self.applied = true;
                self.phase = Phase::Committing;
                SwitchAction::Commit
            },
            (Phase::Committing, SwitchEvent::Done) => {
                self.phase = Phase::Checking;
                SwitchAction::CheckLater
            },
            (Phase::Checking, SwitchEvent::Ours(ours)) => {
                if ours {
                    self.phase = Phase::CheckingAgain;
                    SwitchAction::Check
                } else {
                    self.phase = Phase::CommittingAgain;
                    SwitchAction::Commit
                }
            },
            (Phase::CommittingAgain, SwitchEvent::Done) => {
                self.phase = Phase::CheckingAgain;
                SwitchAction::Check
            },
            (Phase::CheckingAgain, SwitchEvent::Ours(ours)) => {
                self.phase = Phase::Idle;
                if ours {
                    self.keepalive = true;
                    SwitchAction::Finish
                } else {
                    self.applied = false;
                    self.keepalive = false;
                    SwitchAction::Stolen
                }
            },
            (Phase::Idle, SwitchEvent::TurnOff) => {
                self.keepalive = false;
                if self.applied {
                    self.phase = Phase::Restoring;
                    SwitchAction::Restore
                } else {
                    self.phase = Phase::CheckingOff;
                    SwitchAction::Check
                }
            },
            (Phase::CheckingOff, SwitchEvent::Ours(ours)) => {
                if ours {
                    self.phase = Phase::Restoring;
                    SwitchAction::Restore
                } else {
                    self.phase = Phase::Idle;
                    SwitchAction::Notify
                }
            },
            (Phase::Restoring, SwitchEvent::Done) => {
                self.phase = Phase::CheckingRestored;
                SwitchAction::Check
            },
            (Phase::CheckingRestored, SwitchEvent::Ours(ours)) => {
                if ours {
                    self.phase = Phase::Clearing;
                    SwitchAction::ApplyOff
                } else {
                    self.applied = false;
                    self.phase = Phase::Idle;
                    SwitchAction::Notify
                }
            },
            (Phase::Clearing, SwitchEvent::Done) => {
                self.applied = false;
                self.phase = Phase::Idle;
                SwitchAction::Notify
            },
            (Phase::Idle, SwitchEvent::Recover) => {
                self.keepalive = false;
                self.phase = Phase::CheckingOrphan;
                SwitchAction::Check
            },
            (Phase::CheckingOrphan, SwitchEvent::Ours(ours)) => {
                if ours {
                    self.applied = true;
                    self.phase = Phase::RestoringOrphan;
                    SwitchAction::Restore
                } else {
                    self.applied = false;
                    self.phase = Phase::Idle;
                    SwitchAction::RemoveUndo
                }
            },
            (Phase::RestoringOrphan, SwitchEvent::Done) => {
                self.phase = Phase::CheckingOrphanRestored;
                SwitchAction::Check
            },
            (Phase::CheckingOrphanRestored, SwitchEvent::Ours(ours)) => {
                if ours {
                    self.phase = Phase::ClearingOrphan;
                    SwitchAction::ApplyOff
                } else {
                    self.applied = false;
                    self.phase = Phase::Idle;
                    SwitchAction::Notify
                }
            },
            (Phase::ClearingOrphan, SwitchEvent::Done) => {
                self.applied = false;
                self.phase = Phase::Idle;
                SwitchAction::Notify
            },
            (Phase::ClearingOrphan, SwitchEvent::Failed) => {
                self.applied = false;
                self.phase = Phase::Idle;
                SwitchAction::Notify
            },
            (Phase::Idle, _) => SwitchAction::Ignore,
            (_, SwitchEvent::Failed) => {
                self.phase = Phase::Idle;
                SwitchAction::Fail
            },
            _ => SwitchAction::Ignore,
        }
    }

    /// Whether the own values are written again: they are kept up, and another
    /// program took them over.
    pub fn rewrites(&self, ours: bool) -> (r: bool)
        ensures
            r == (self.keepalive && !ours),
    {
        self.keepalive && !ours
    }
}

// ---- macOS ----
/// The proxy of a network service.
#[derive(Debug)]
pub struct ProxyState {
    pub enabled: bool,
    pub server: String,
    pub port: i32,
}

#[verifier::ext_equal]
pub struct StateView {
    pub enabled: bool,
    pub server: Seq<char>,
    pub port: int,
}

impl View for ProxyState {
    type V = StateView;

    open spec fn view(&self) -> StateView {
        StateView { enabled: self.enabled, server: self.server@, port: self.port as int }
    }
}

/// The services of a listing: not its heading, nor a service that is off.
pub open spec fn is_service(line: Seq<char>) -> bool {
    line.len() > 0 && !text::starts(line, "An asterisk"@) && !text::starts(line, "* "@)
}

pub open spec fn services_of(lines: Seq<Seq<char>>) -> Seq<Seq<char>>
    decreases lines.len(),
{
    if lines.len() == 0 {
        Seq::empty()
    } else {
        let rest = services_of(lines.drop_last());
        let line = text::trimmed(lines.last());
        if is_service(line) {
            rest.push(line)
        } else {
            rest
        }
    }
}

pub fn parse_services(listing: &str) -> (r: Vec<String>)
    ensures
        text::strings(r@) == services_of(text::lines_of(listing@)),
{
    let c = text::chars_of(listing);
    let lines = text::lines(c.as_slice());
    let ghost ls = text::texts(lines@);
    let mut r: Vec<String> = Vec::new();
    let mut i: usize = 0;
    assert(text::strings(r@) =~= services_of(ls.take(0)));
    while i < lines.len()
        invariant
            i <= lines@.len(),
            ls == text::texts(lines@),
            text::strings(r@) == services_of(ls.take(i as int)),
        decreases lines@.len() - i,
    {
        let line = text::trim(lines[i]);
        let ghost before = text::strings(r@);
        proof {
            assert(ls.take(i + 1).drop_last() =~= ls.take(i as int));
            assert(ls.take(i + 1).last() == lines@[i as int]@);
        }
        if line.len() > 0 && !text::starts_with(line, "An asterisk") && !text::starts_with(
            line,
            "* ",
        ) {
            let s = text::string_of(line);
            r.push(s);
            assert(text::strings(r@) =~= before.push(line@));
        }
        i += 1;
    }
    assert(ls.take(i as int) =~= ls);
    r
}

pub open spec fn port_value(s: Seq<char>) -> int {
    match text::short_value(s) {
        Some(v) => v,
        None => 0,
    }
}

fn read_port(s: &[char]) -> (r: i32)
    ensures
        r == port_value(s@),
{
    match text::parse_i32(s) {
        Some(v) => v,
        None => 0,
    }
}

/// A state with one more line of a report.
pub open spec fn with_report(st: StateView, line: Seq<char>) -> StateView {
    match text::cut(line, ':') {
        None => st,
        Some((k, v)) => {
            let key = text::trimmed(k);
            let value = text::trimmed(v);
            if key == "Enabled"@ {
                StateView {
                    enabled: text::same_nocase(value, "yes"@) || value == "1"@,
                    server: st.server,
                    port: st.port,
                }
            } else if key == "Server"@ {
                StateView { enabled: st.enabled, server: value, port: st.port }
            } else if key == "Port"@ {
                StateView { enabled: st.enabled, server: st.server, port: port_value(value) }
            } else {
                st
            }
        },
    }
}

/// The state that a report tells; a later line wins.
pub open spec fn reported(lines: Seq<Seq<char>>) -> StateView
    decreases lines.len(),
{
    if lines.len() == 0 {
        StateView { enabled: false, server: Seq::empty(), port: 0 }
    } else {
        with_report(reported(lines.drop_last()), lines.last())
    }
}

pub fn parse_proxy_state(report: &str) -> (r: ProxyState)
    ensures
        r@ == reported(text::lines_of(report@)),
{
    let c = text::chars_of(report);
    let lines = text::lines(c.as_slice());
    let ghost ls = text::texts(lines@);
    let mut st = ProxyState { enabled: false, server: String::new(), port: 0 };
    let mut i: usize = 0;
    assert(st@ =~= reported(ls.take(0)));
    while i < lines.len()
        invariant
            i <= lines@.len(),
            ls == text::texts(lines@),
            st@ == reported(ls.take(i as int)),
        decreases lines@.len() - i,
    {
        proof {
            assert(ls.take(i + 1).drop_last() =~= ls.take(i as int));
            assert(ls.take(i + 1).last() == lines@[i as int]@);
        }
        if let Some((k, v)) = text::split_once(lines[i], ':') {
            let key = text::trim(k);
            let value = text::trim(v);
            if text::is(key, "Enabled") {
                st.enabled = text::is_nocase(value, "yes") || text::is(value, "1");
            } else if text::is(key, "Server") {
                st.server = text::string_of(value);
            } else if text::is(key, "Port") {
                st.port = read_port(value);
            }
        }
        i += 1;
    }
    assert(ls.take(i as int) =~= ls);
    st
}

impl ProxyState {
    /// Whether the state names this program's proxy.
    pub fn is_ours(&self) -> (r: bool)
        ensures
            r == (self.enabled && self.server@ == "127.0.0.1"@ && self.port == 7887),
    {
        let c = text::chars_of(self.server.as_str());
        self.enabled && text::is(c.as_slice(), "127.0.0.1") && self.port == 7887
    }

    /// Whether one of some states names this program's proxy.
    pub fn any_ours(states: &[ProxyState]) -> (r: bool)
        ensures
            r == (exists|i: int|
                0 <= i < states@.len() && (#[trigger] states@[i]).enabled && states@[i].server@
                    == "127.0.0.1"@ && states@[i].port == 7887),
    {
        let mut i: usize = 0;
        while i < states.len()
            invariant
                i <= states@.len(),
                forall|j: int|
                    0 <= j < i ==> !((#[trigger] states@[j]).enabled && states@[j].server@
                        == "127.0.0.1"@ && states@[j].port == 7887),
            decreases states@.len() - i,
        {
            if states[i].is_ours() {
                return true;
            }
            i += 1;
        }
        false
    }

    /// Whether the state can be set again; else the proxy is switched off.
    pub fn can_restore(&self) -> (r: bool)
        ensures
            r == (self.enabled && self.server@.len() > 0 && self.port > 0),
    {
        self.enabled && !self.server.as_str().is_empty() && self.port > 0
    }
}

/// The arguments of the commands that bring a state back.
pub open spec fn restore_args(
    service: Seq<char>,
    set_cmd: Seq<char>,
    state_cmd: Seq<char>,
    st: StateView,
) -> Seq<Seq<Seq<char>>> {
    if st.enabled && st.server.len() > 0 && st.port > 0 {
        seq![
            seq![set_cmd, service, st.server, text::dec(st.port as nat)],
            seq![state_cmd, service, "on"@],
        ]
    } else {
        seq![seq![state_cmd, service, "off"@]]
    }
}

pub open spec fn commands(v: Seq<Vec<String>>) -> Seq<Seq<Seq<char>>> {
    Seq::new(v.len(), |i: int| text::strings(v[i]@))
}

pub fn restore_commands(
    service: &str,
    set_cmd: &str,
    state_cmd: &str,
    st: &ProxyState,
) -> (r: Vec<Vec<String>>)
    ensures
        commands(r@) == restore_args(service@, set_cmd@, state_cmd@, st@),
{
    let mut r: Vec<Vec<String>> = Vec::new();
    let mut state: Vec<String> = Vec::new();
    state.push(state_cmd.to_owned());
    state.push(service.to_owned());
    if st.can_restore() {
        let mut set: Vec<String> = Vec::new();
        set.push(set_cmd.to_owned());
        set.push(service.to_owned());
        set.push(st.server.clone());
        let d = text::format_dec(st.port as u64);
        set.push(text::string_of(d.as_slice()));
        state.push("on".to_owned());
        assert(text::strings(set@) =~= seq![
            set_cmd@,
            service@,
            st.server@,
            text::dec(st.port as nat),
        ]);
        assert(text::strings(state@) =~= seq![state_cmd@, service@, "on"@]);
        r.push(set);
        r.push(state);
    } else {
        state.push("off".to_owned());
        assert(text::strings(state@) =~= seq![state_cmd@, service@, "off"@]);
        r.push(state);
    }
    assert(commands(r@) =~= restore_args(service@, set_cmd@, state_cmd@, st@));
    r
}

/// The arguments of the commands that lead a service to this program.
pub open spec fn apply_args(service: Seq<char>) -> Seq<Seq<Seq<char>>> {
    seq![
        seq!["-setwebproxy"@, service, "127.0.0.1"@, "7887"@],
        seq!["-setsecurewebproxy"@, service, "127.0.0.1"@, "7887"@],
        seq!["-setwebproxystate"@, service, "on"@],
        seq!["-setsecurewebproxystate"@, service, "on"@],
    ]
}

fn set_own(cmd: &str, service: &str) -> (r: Vec<String>)
    ensures
        text::strings(r@) == seq![cmd@, service@, "127.0.0.1"@, "7887"@],
{
    let mut r: Vec<String> = Vec::new();
    r.push(cmd.to_owned());
    r.push(service.to_owned());
    r.push("127.0.0.1".to_owned());
    r.push("7887".to_owned());
    assert(text::strings(r@) =~= seq![cmd@, service@, "127.0.0.1"@, "7887"@]);
    r
}

fn switch_on(cmd: &str, service: &str) -> (r: Vec<String>)
    ensures
        text::strings(r@) == seq![cmd@, service@, "on"@],
{
    let mut r: Vec<String> = Vec::new();
    r.push(cmd.to_owned());
    r.push(service.to_owned());
    r.push("on".to_owned());
    assert(text::strings(r@) =~= seq![cmd@, service@, "on"@]);
    r
}

pub fn apply_commands(service: &str) -> (r: Vec<Vec<String>>)
    ensures
        commands(r@) == apply_args(service@),
{
    let mut r: Vec<Vec<String>> = Vec::new();
    r.push(set_own("-setwebproxy", service));
    r.push(set_own("-setsecurewebproxy", service));
    r.push(switch_on("-setwebproxystate", service));
    r.push(switch_on("-setsecurewebproxystate", service));
    assert(commands(r@) =~= apply_args(service@));
    r
}

/// A service with its two proxies.
#[derive(Debug)]
pub struct ServiceSnap {
    pub name: String,
    pub web: ProxyState,
    pub secure: ProxyState,
}

#[verifier::ext_equal]
pub struct SnapView {
    pub name: Seq<char>,
    pub web: StateView,
    pub secure: StateView,
}

impl View for ServiceSnap {
    type V = SnapView;

    open spec fn view(&self) -> SnapView {
        SnapView { name: self.name@, web: self.web@, secure: self.secure@ }
    }
}

pub open spec fn snap_views(v: Seq<ServiceSnap>) -> Seq<SnapView> {
    Seq::new(v.len(), |i: int| v[i]@)
}

/// The commands that bring both proxies of a service back.
pub fn restore_service(s: &ServiceSnap) -> (r: Vec<Vec<String>>)
    ensures
        commands(r@) == restore_args(s.name@, "-setwebproxy"@, "-setwebproxystate"@, s.web@)
            + restore_args(
            s.name@,
            "-setsecurewebproxy"@,
            "-setsecurewebproxystate"@,
            s.secure@,
        ),
{
    let mut r = restore_commands(s.name.as_str(), "-setwebproxy", "-setwebproxystate", &s.web);
    let mut more = restore_commands(
        s.name.as_str(),
        "-setsecurewebproxy",
        "-setsecurewebproxystate",
        &s.secure,
    );
    let ghost a = r@;
    let ghost b = more@;
    r.append(&mut more);
    assert(commands(r@) =~= commands(a) + commands(b));
    r
}

pub open spec fn bool_text(b: bool) -> Seq<char> {
    if b {
        "true"@
    } else {
        "false"@
    }
}

/// The seven fields of a service.
pub open spec fn snap_fields(s: SnapView) -> Seq<Seq<char>> {
    seq![
        s.name,
        bool_text(s.web.enabled),
        s.web.server,
        text::dec_int(s.web.port),
        bool_text(s.secure.enabled),
        s.secure.server,
        text::dec_int(s.secure.port),
    ]
}

/// Fields with a tab between them.
pub open spec fn tabbed(f: Seq<Seq<char>>) -> Seq<char>
    decreases f.len(),
{
    if f.len() == 0 {
        Seq::empty()
    } else if f.len() == 1 {
        f[0]
    } else {
        f[0] + seq!['\t'] + tabbed(f.skip(1))
    }
}

fn join_tabs(f: &[String]) -> (r: Vec<char>)
    ensures
        r@ == tabbed(text::strings(f@)),
{
    let ghost fs = text::strings(f@);
    let mut out: Vec<char> = Vec::new();
    let n: usize = f.len();
    if n == 0 {
        assert(out@ =~= tabbed(fs));
        return out;
    }
    let mut i: usize = n - 1;
    text::append_str(&mut out, f[i].as_str());
    assert(fs.skip(i as int) =~= seq![f@[i as int]@]);
    assert(out@ =~= tabbed(fs.skip(i as int)));
    while i > 0
        invariant
            i < n == f@.len(),
            fs == text::strings(f@),
            out@ == tabbed(fs.skip(i as int)),
        decreases i,
    {
        i -= 1;
        let ghost tail = out@;
        let mut c = text::chars_of(f[i].as_str());
        c.push('\t');
        text::append(&mut c, out.as_slice());
        out = c;
        proof {
            assert(fs.skip(i as int).skip(1) =~= fs.skip(i + 1));
            assert(fs.skip(i as int)[0] == f@[i as int]@);
            assert(out@ =~= f@[i as int]@ + seq!['\t'] + tail);
        }
    }
    assert(fs.skip(0) =~= fs);
    out
}

/// The services as they are kept, a line each.
pub open spec fn snaps_text(v: Seq<SnapView>) -> Seq<char>
    decreases v.len(),
{
    if v.len() == 0 {
        Seq::empty()
    } else {
        snaps_text(v.drop_last()) + tabbed(snap_fields(v.last())) + seq!['\n']
    }
}

fn bool_string(b: bool) -> (r: String)
    ensures
        r@ == bool_text(b),
{
    if b {
        "true".to_owned()
    } else {
        "false".to_owned()
    }
}

fn int_string(n: i32) -> (r: String)
    ensures
        r@ == text::dec_int(n as int),
{
    let d = text::format_int(n as i64);
    text::string_of(d.as_slice())
}

pub fn write_services(v: &[ServiceSnap]) -> (r: String)
    ensures
        r@ == snaps_text(snap_views(v@)),
{
    let ghost vs = snap_views(v@);
    let mut out: Vec<char> = Vec::new();
    let mut i: usize = 0;
    assert(out@ =~= snaps_text(vs.take(0)));
    while i < v.len()
        invariant
            i <= v@.len(),
            vs == snap_views(v@),
            out@ == snaps_text(vs.take(i as int)),
        decreases v@.len() - i,
    {
        let s = &v[i];
        let ghost before = out@;
        let mut f: Vec<String> = Vec::new();
        f.push(s.name.clone());
        f.push(bool_string(s.web.enabled));
        f.push(s.web.server.clone());
        f.push(int_string(s.web.port));
        f.push(bool_string(s.secure.enabled));
        f.push(s.secure.server.clone());
        f.push(int_string(s.secure.port));
        assert(text::strings(f@) =~= snap_fields(s@));
        let line = join_tabs(f.as_slice());
        text::append(&mut out, line.as_slice());
        out.push('\n');
        proof {
            assert(vs.take(i + 1).drop_last() =~= vs.take(i as int));
            assert(vs.take(i + 1).last() == s@);
            assert(out@ =~= before + tabbed(snap_fields(s@)) + seq!['\n']);
        }
        i += 1;
    }
    assert(vs.take(i as int) =~= vs);
    text::string_of(out.as_slice())
}

/// The service that a kept line holds, where it has its seven fields.
pub open spec fn snap_of_line(line: Seq<char>) -> Option<SnapView> {
    let p = text::pieces(line, "\t"@);
    if p.len() < 7 {
        None
    } else {
        Some(
            SnapView {
                name: p[0],
                web: StateView {
                    enabled: text::same_nocase(p[1], "true"@),
                    server: p[2],
                    port: port_value(p[3]),
                },
                secure: StateView {
                    enabled: text::same_nocase(p[4], "true"@),
                    server: p[5],
                    port: port_value(p[6]),
                },
            },
        )
    }
}

pub open spec fn snaps_of(lines: Seq<Seq<char>>) -> Seq<SnapView>
    decreases lines.len(),
{
    if lines.len() == 0 {
        Seq::empty()
    } else {
        match snap_of_line(lines.last()) {
            Some(s) => snaps_of(lines.drop_last()).push(s),
            None => snaps_of(lines.drop_last()),
        }
    }
}

/// Reads the kept services.
pub fn load_services(kept: &str) -> (r: Vec<ServiceSnap>)
    ensures
        snap_views(r@) == snaps_of(text::lines_of(kept@)),
{
    let c = text::chars_of(kept);
    let lines = text::lines(c.as_slice());
    let ghost ls = text::texts(lines@);
    let mut r: Vec<ServiceSnap> = Vec::new();
    let mut i: usize = 0;
    assert(snap_views(r@) =~= snaps_of(ls.take(0)));
    while i < lines.len()
        invariant
            i <= lines@.len(),
            ls == text::texts(lines@),
            snap_views(r@) == snaps_of(ls.take(i as int)),
        decreases lines@.len() - i,
    {
        let ghost before = snap_views(r@);
        proof {
            assert(ls.take(i + 1).drop_last() =~= ls.take(i as int));
            assert(ls.take(i + 1).last() == lines@[i as int]@);
        }
        let p = text::split(lines[i], "\t");
        let ghost ps = text::texts(p@);
        if p.len() >= 7 {
            assert(ps.len() == p@.len());
            assert(forall|j: int| 0 <= j < p@.len() ==> ps[j] == (#[trigger] p@[j])@);
            let s = ServiceSnap {
                name: text::string_of(p[0]),
                web: ProxyState {
                    enabled: text::is_nocase(p[1], "true"),
                    server: text::string_of(p[2]),
                    port: read_port(p[3]),
                },
                secure: ProxyState {
                    enabled: text::is_nocase(p[4], "true"),
                    server: text::string_of(p[5]),
                    port: read_port(p[6]),
                },
            };
            assert(Some(s@) == snap_of_line(lines@[i as int]@));
            r.push(s);
            assert(snap_views(r@) =~= before.push(s@));
        }
        i += 1;
    }
    assert(ls.take(i as int) =~= ls);
    r
}

// ---- GNOME ----
/// The proxy setting of GNOME.
#[derive(Debug)]
pub struct GnomeSnap {
    pub mode: String,
    pub use_same: String,
    pub http_host: String,
    pub http_port: String,
    pub http_enabled: String,
    pub https_host: String,
    pub https_port: String,
}

/// The seven texts of a setting.
pub open spec fn gnome_fields(s: GnomeSnap) -> Seq<Seq<char>> {
    seq![
        s.mode@,
        s.use_same@,
        s.http_host@,
        s.http_port@,
        s.http_enabled@,
        s.https_host@,
        s.https_port@,
    ]
}

/// A value as `gsettings` prints it, without its quotes.
pub open spec fn unquoted(out: Seq<char>) -> Seq<char> {
    let t = text::trimmed(out);
    if t.len() >= 2 && t[0] == '\'' && t.last() == '\'' {
        t.subrange(1, t.len() - 1)
    } else {
        t
    }
}

pub fn gnome_value(out: &str) -> (r: String)
    ensures
        r@ == unquoted(out@),
{
    let c = text::chars_of(out);
    let t = text::trim(c.as_slice());
    let n: usize = t.len();
    if n >= 2 && t[0] == '\'' && t[n - 1] == '\'' {
        let u = &t[1..n - 1];
        assert(u@ =~= t@.subrange(1, n - 1));
        text::string_of(u)
    } else {
        text::string_of(t)
    }
}

/// A value as `gsettings` takes it: truth values and numbers as they are, other
/// texts in quotes.
pub open spec fn quoted(value: Seq<char>) -> Seq<char> {
    if value == "true"@ || value == "false"@ || text::short_value(value) is Some {
        value
    } else {
        "'"@ + text::replaced(text::replaced(value, "\\"@, "\\\\"@), "'"@, "\\'"@) + "'"@
    }
}

pub fn gnome_argument(value: &str) -> (r: String)
    ensures
        r@ == quoted(value@),
{
    let c = text::chars_of(value);
    if text::is(c.as_slice(), "true") || text::is(c.as_slice(), "false") || text::parse_i32(
        c.as_slice(),
    ).is_some() {
        return value.to_owned();
    }
    proof {
        reveal_strlit("\\");
        reveal_strlit("'");
    }
    let a = text::replace(c.as_slice(), "\\", "\\\\");
    let b = text::replace(a.as_slice(), "'", "\\'");
    let mut out = text::chars_of("'");
    text::append(&mut out, b.as_slice());
    text::append_str(&mut out, "'");
    text::string_of(out.as_slice())
}

fn opt_or(o: Option<String>, d: &str) -> (r: String)
    ensures
        r@ == (match text::opt_view(o) {
            Some(s) => s,
            None => d@,
        }),
{
    match o {
        Some(s) => s,
        None => d.to_owned(),
    }
}

pub open spec fn or_else(o: Option<String>, d: Seq<char>) -> Seq<char> {
    match text::opt_view(o) {
        Some(s) => s,
        None => d,
    }
}

/// The setting with what could be read of it.
pub fn gnome_snapshot(
    mode: Option<String>,
    use_same: Option<String>,
    http_host: Option<String>,
    http_port: Option<String>,
    http_enabled: Option<String>,
    https_host: Option<String>,
    https_port: Option<String>,
) -> (r: GnomeSnap)
    ensures
        gnome_fields(r) == seq![
            or_else(mode, "none"@),
            or_else(use_same, "true"@),
            or_else(http_host, ""@),
            or_else(http_port, "0"@),
            or_else(http_enabled, "false"@),
            or_else(https_host, ""@),
            or_else(https_port, "0"@),
        ],
{
    GnomeSnap {
        mode: opt_or(mode, "none"),
        use_same: opt_or(use_same, "true"),
        http_host: opt_or(http_host, ""),
        http_port: opt_or(http_port, "0"),
        http_enabled: opt_or(http_enabled, "false"),
        https_host: opt_or(https_host, ""),
        https_port: opt_or(https_port, "0"),
    }
}

/// The setting that leads to this program.
pub fn gnome_own() -> (r: GnomeSnap)
    ensures
        gnome_fields(r) == seq![
            "manual"@,
            "true"@,
            "127.0.0.1"@,
            "7887"@,
            "true"@,
            "127.0.0.1"@,
            "7887"@,
        ],
{
    GnomeSnap {
        mode: "manual".to_owned(),
        use_same: "true".to_owned(),
        http_host: "127.0.0.1".to_owned(),
        http_port: "7887".to_owned(),
        http_enabled: "true".to_owned(),
        https_host: "127.0.0.1".to_owned(),
        https_port: "7887".to_owned(),
    }
}

/// The arguments of the command that sets a key.
pub open spec fn set_args(schema: Seq<char>, key: Seq<char>, value: Seq<char>) -> Seq<Seq<char>> {
    seq!["set"@, schema, key, quoted(value)]
}

/// The arguments of the commands that make a setting.
pub open spec fn gnome_args(f: Seq<Seq<char>>) -> Seq<Seq<Seq<char>>> {
    seq![
        set_args("org.gnome.system.proxy"@, "mode"@, f[0]),
        set_args("org.gnome.system.proxy"@, "use-same-proxy"@, f[1]),
        set_args("org.gnome.system.proxy.http"@, "enabled"@, f[4]),
        set_args("org.gnome.system.proxy.http"@, "host"@, f[2]),
        set_args("org.gnome.system.proxy.http"@, "port"@, f[3]),
        set_args("org.gnome.system.proxy.https"@, "host"@, f[5]),
        set_args("org.gnome.system.proxy.https"@, "port"@, f[6]),
    ]
}

fn set_key(schema: &str, key: &str, value: &String) -> (r: Vec<String>)
    ensures
        text::strings(r@) == set_args(schema@, key@, value@),
{
    let mut r: Vec<String> = Vec::new();
    r.push("set".to_owned());
    r.push(schema.to_owned());
    r.push(key.to_owned());
    r.push(gnome_argument(value.as_str()));
    assert(text::strings(r@) =~= set_args(schema@, key@, value@));
    r
}

pub fn gnome_commands(s: &GnomeSnap) -> (r: Vec<Vec<String>>)
    ensures
        commands(r@) == gnome_args(gnome_fields(*s)),
{
    let mut r: Vec<Vec<String>> = Vec::new();
    r.push(set_key("org.gnome.system.proxy", "mode", &s.mode));
    r.push(set_key("org.gnome.system.proxy", "use-same-proxy", &s.use_same));
    r.push(set_key("org.gnome.system.proxy.http", "enabled", &s.http_enabled));
    r.push(set_key("org.gnome.system.proxy.http", "host", &s.http_host));
    r.push(set_key("org.gnome.system.proxy.http", "port", &s.http_port));
    r.push(set_key("org.gnome.system.proxy.https", "host", &s.https_host));
    r.push(set_key("org.gnome.system.proxy.https", "port", &s.https_port));
    assert(commands(r@) =~= gnome_args(gnome_fields(*s)));
    r
}

pub fn write_gnome(s: &GnomeSnap) -> (r: String)
    ensures
        r@ == tabbed(gnome_fields(*s)),
{
    let mut f: Vec<String> = Vec::new();
    f.push(s.mode.clone());
    f.push(s.use_same.clone());
    f.push(s.http_host.clone());
    f.push(s.http_port.clone());
    f.push(s.http_enabled.clone());
    f.push(s.https_host.clone());
    f.push(s.https_port.clone());
    assert(text::strings(f@) =~= gnome_fields(*s));
    let line = join_tabs(f.as_slice());
    text::string_of(line.as_slice())
}

/// The texts of a kept setting, where it has seven.
pub open spec fn gnome_of(kept: Seq<char>) -> Option<Seq<Seq<char>>> {
    let p = text::pieces(kept, "\t"@);
    if p.len() < 7 {
        None
    } else {
        Some(p.take(6).push(text::trimmed(p[6])))
    }
}

pub fn load_gnome(kept: &str) -> (r: Option<GnomeSnap>)
    ensures
        (match r {
            Some(s) => Some(gnome_fields(s)),
            None => None,
        }) == gnome_of(kept@),
{
    let c = text::chars_of(kept);
    let p = text::split(c.as_slice(), "\t");
    let ghost ps = text::texts(p@);
    assert(ps.len() == p@.len());
    if p.len() < 7 {
        return None;
    }
    assert(forall|j: int| 0 <= j < p@.len() ==> ps[j] == (#[trigger] p@[j])@);
    let s = GnomeSnap {
        mode: text::string_of(p[0]),
        use_same: text::string_of(p[1]),
        http_host: text::string_of(p[2]),
        http_port: text::string_of(p[3]),
        http_enabled: text::string_of(p[4]),
        https_host: text::string_of(p[5]),
        https_port: text::string_of(text::trim(p[6])),
    };
    assert(gnome_fields(s) =~= ps.take(6).push(text::trimmed(ps[6])));
    Some(s)
}

/// Whether a setting that was left behind is that of this program.
pub fn gnome_is_ours(mode: &str, host: &str, port: &str) -> (r: bool)
    ensures
        r == (text::has(mode@, "manual"@) && text::has(host@, "127.0.0.1"@) && text::trimmed(port@)
            == "7887"@),
{
    let m = text::chars_of(mode);
    let h = text::chars_of(host);
    let p = text::chars_of(port);
    text::contains(m.as_slice(), "manual") && text::contains(h.as_slice(), "127.0.0.1") && text::is(
        text::trim(p.as_slice()),
        "7887",
    )
}

// ---- laws ----
/// The connection settings keep the version of the former ones and count one
/// further.
pub proof fn law_blob_follows(enable: bool, server: Seq<u8>, bypass: Seq<u8>, old: Seq<u8>)
    requires
        old.len() >= 8,
        0x40 <= codec::le32(old[0], old[1], old[2], old[3]) <= 0x50,
    ensures
        ({
            let b = blob_head(enable, server, bypass, Some(old));
            &&& codec::le32(b[0], b[1], b[2], b[3]) == codec::le32(old[0], old[1], old[2], old[3])
            &&& codec::le32(b[4], b[5], b[6], b[7]) == (codec::le32(old[4], old[5], old[6], old[7])
                + 1) % 0x1_0000_0000
        }),
{
    let b = blob_head(enable, server, bypass, Some(old));
    let v = blob_version(Some(old));
    let c = blob_counter(Some(old));
    codec::law_le32_reads_back(v);
    codec::law_le32_reads_back(c);
    assert(b.subrange(0, 4) =~= codec::le32_bytes(v));
    assert(b.subrange(4, 8) =~= codec::le32_bytes(c));
    assert(forall|i: int| 0 <= i < 4 ==> b[i] == #[trigger] b.subrange(0, 4)[i]);
    assert(forall|i: int| 0 <= i < 4 ==> b[4 + i] == #[trigger] b.subrange(4, 8)[i]);
    assert(b[0] == b.subrange(0, 4)[0] && b[1] == b.subrange(0, 4)[1] && b[2] == b.subrange(
        0,
        4,
    )[2] && b[3] == b.subrange(0, 4)[3]);
    assert(b[4] == b.subrange(4, 8)[0] && b[5] == b.subrange(4, 8)[1] && b[6] == b.subrange(
        4,
        8,
    )[2] && b[7] == b.subrange(4, 8)[3]);
}

/// What every step of a switch keeps, from its beginning on: a setting that is
/// committed or checked while it is turned on has been applied.
pub proof fn law_switch_stays_sound(s: ProxySwitch, e: SwitchEvent)
    ensures
        ProxySwitch::idle(false, false).sound(),
        s.sound() ==> s.next(e).0.sound(),
{
}

/// A switch that finished has the setting applied and kept up; one that found
/// it stolen, and one off, has not.
pub proof fn law_switch_outcome(s: ProxySwitch, e: SwitchEvent)
    requires
        s.sound(),
    ensures
        ({
            let (t, a) = s.next(e);
            &&& a is Finish ==> t == ProxySwitch::idle(true, true)
            &&& a is Stolen ==> t == ProxySwitch::idle(false, false)
            &&& a is Notify && s.phase != Phase::CheckingOff ==> !t.applied
        }),
{
}

/// The former setting comes back: a switch that is turned off restores it where the own
/// one was applied or is still there, and one that finds the own one at its start, left
/// behind by a program that did not end well, restores it too. Then the own one is no
/// longer applied, and one that is still there is cleared.
pub proof fn law_setting_is_restored(s: ProxySwitch)
    requires
        s.phase == Phase::Idle,
    ensures
        s.applied ==> s.next(SwitchEvent::TurnOff).1 == SwitchAction::Restore,
        !s.applied ==> s.next(SwitchEvent::TurnOff).1 == SwitchAction::Check && s.next(
            SwitchEvent::TurnOff,
        ).0.next(SwitchEvent::Ours(true)).1 == SwitchAction::Restore,
        s.next(SwitchEvent::Recover).1 == SwitchAction::Check && s.next(
            SwitchEvent::Recover,
        ).0.next(SwitchEvent::Ours(true)).1 == SwitchAction::Restore,
        forall|t: ProxySwitch|
            t.phase == Phase::Restoring || t.phase == Phase::RestoringOrphan ==> {
                let (u, a) = #[trigger] t.next(SwitchEvent::Done);
                let (v, b) = u.next(SwitchEvent::Ours(false));
                let (w, c) = u.next(SwitchEvent::Ours(true));
                let (x, d) = w.next(SwitchEvent::Done);
                &&& a == SwitchAction::Check
                &&& b == SwitchAction::Notify && v == ProxySwitch::idle(false, t.keepalive)
                &&& c == SwitchAction::ApplyOff
                &&& d == SwitchAction::Notify && x == ProxySwitch::idle(false, t.keepalive)
            },
{
}

pub open spec fn holds_no(s: Seq<char>, c: char) -> bool {
    forall|i: int| 0 <= i < s.len() ==> #[trigger] s[i] != c
}

/// Fields that hold no tab are read back as they were written.
pub proof fn law_tabbed_reads_back(f: Seq<Seq<char>>)
    requires
        f.len() > 0,
        forall|i: int| 0 <= i < f.len() ==> holds_no(#[trigger] f[i], '\t'),
    ensures
        text::pieces(tabbed(f), "\t"@) == f,
    decreases f.len(),
{
    reveal_strlit("\t");
    assert("\t"@ =~= seq!['\t']);
    let seps = "\t"@;
    assert(seps[0] == '\t');
    assert(seps.contains('\t'));
    assert forall|i: int| 0 <= i < f[0].len() implies !seps.contains(#[trigger] f[0][i]) by {
        assert(holds_no(f[0], '\t'));
    }
    if f.len() == 1 {
        text::lemma_pieces_cut(f[0], '\t', Seq::empty(), seps);
        assert(f =~= seq![f[0]]);
    } else {
        let rest = f.skip(1);
        assert forall|i: int| 0 <= i < rest.len() implies holds_no(#[trigger] rest[i], '\t') by {
            assert(rest[i] == f[i + 1]);
        }
        law_tabbed_reads_back(rest);
        text::lemma_pieces_cut(f[0], '\t', tabbed(rest), seps);
        assert(f =~= seq![f[0]] + rest);
    }
}

/// A GNOME setting is read back as it was kept, unless a field holds a tab or
/// the last one has white space at its ends.
pub proof fn law_gnome_reads_back(s: GnomeSnap)
    requires
        forall|i: int| 0 <= i < 7 ==> holds_no(#[trigger] gnome_fields(s)[i], '\t'),
        text::trimmed(s.https_port@) == s.https_port@,
    ensures
        gnome_of(tabbed(gnome_fields(s))) == Some(gnome_fields(s)),
{
    law_tabbed_reads_back(gnome_fields(s));
    let f = gnome_fields(s);
    assert(f.take(6).push(text::trimmed(f[6])) =~= f);
}

proof fn lemma_number_reads_back(n: int)
    requires
        -0x8000_0000 <= n <= 0x7fff_ffff,
    ensures
        port_value(text::dec_int(n)) == n,
        holds_no(text::dec_int(n), '\t'),
        holds_no(text::dec_int(n), '\n'),
        text::dec_int(n).len() > 0,
        text::dec_int(n).last() != '\r',
{
    if n < 0 {
        let d = text::dec((-n) as nat);
        text::law_dec_reads_back((-n) as nat);
        assert(text::dec_int(n).skip(1) =~= d);
        assert(text::is_digit(d.last()));
        assert(forall|i: int| 0 <= i < d.len() ==> text::is_digit(#[trigger] d[i]));
    } else {
        text::law_dec_reads_back(n as nat);
        let d = text::dec(n as nat);
        assert(text::is_digit(d[0]));
        assert(text::is_digit(d.last()));
    }
}

/// A service is one that keeps its lines apart: its texts hold neither tabs nor
/// line feeds.
pub open spec fn keepable(s: SnapView) -> bool {
    &&& holds_no(s.name, '\t') && holds_no(s.name, '\n')
    &&& holds_no(s.web.server, '\t') && holds_no(s.web.server, '\n')
    &&& holds_no(s.secure.server, '\t') && holds_no(s.secure.server, '\n')
    &&& -0x8000_0000 <= s.web.port <= 0x7fff_ffff
    &&& -0x8000_0000 <= s.secure.port <= 0x7fff_ffff
}

proof fn lemma_line_reads_back(s: SnapView)
    requires
        keepable(s),
    ensures
        snap_of_line(tabbed(snap_fields(s))) == Some(s),
        holds_no(tabbed(snap_fields(s)), '\n'),
        tabbed(snap_fields(s)).len() > 0,
        tabbed(snap_fields(s)).last() != '\r',
{
    reveal_strlit("true");
    reveal_strlit("false");
    let f = snap_fields(s);
    lemma_number_reads_back(s.web.port);
    lemma_number_reads_back(s.secure.port);
    assert forall|i: int| 0 <= i < f.len() implies holds_no(#[trigger] f[i], '\t') && holds_no(
        f[i],
        '\n',
    ) by {
        if i == 0 {
        } else if i == 1 {
        } else if i == 2 {
        } else if i == 3 {
        } else if i == 4 {
        } else if i == 5 {
        } else {
        }
    }
    law_tabbed_reads_back(f);
    lemma_tabbed_clean(f);
    assert(text::lowered("true"@) == text::lowered("true"@));
    assert(text::lowered("false"@)[0] == 'f');
    assert(text::lowered("true"@)[0] == 't');
    assert(text::same_nocase("true"@, "true"@));
    assert(!text::same_nocase("false"@, "true"@));
    assert(f[6] == text::dec_int(s.secure.port));
    assert(snap_of_line(tabbed(f))->0 =~= s);
}

/// Joined fields hold no line feed where none of them does, and end as the last
/// one ends.
proof fn lemma_tabbed_clean(f: Seq<Seq<char>>)
    requires
        f.len() > 0,
        forall|i: int| 0 <= i < f.len() ==> holds_no(#[trigger] f[i], '\n'),
    ensures
        holds_no(tabbed(f), '\n'),
        f.last().len() > 0 ==> tabbed(f).len() > 0 && tabbed(f).last() == f.last().last(),
    decreases f.len(),
{
    if f.len() > 1 {
        let rest = f.skip(1);
        assert forall|i: int| 0 <= i < rest.len() implies holds_no(#[trigger] rest[i], '\n') by {
            assert(rest[i] == f[i + 1]);
        }
        lemma_tabbed_clean(rest);
        assert(rest.last() == f.last());
        let t = tabbed(f);
        assert(holds_no(f[0], '\n'));
        assert forall|i: int| 0 <= i < t.len() implies #[trigger] t[i] != '\n' by {
            if i < f[0].len() {
                assert(t[i] == f[0][i]);
            } else if i == f[0].len() {
            } else {
                assert(t[i] == tabbed(rest)[i - f[0].len() - 1]);
            }
        }
    }
}

/// The kept lines of services, one by one.
proof fn lemma_kept_lines(v: Seq<SnapView>)
    requires
        forall|i: int| 0 <= i < v.len() ==> keepable(#[trigger] v[i]),
    ensures
        text::pieces(snaps_text(v), seq!['\n']) == Seq::new(
            v.len(),
            |i: int| tabbed(snap_fields(v[i])),
        ).push(Seq::empty()),
    decreases v.len(),
{
    let lines = Seq::new(v.len(), |i: int| tabbed(snap_fields(v[i])));
    let nl = seq!['\n'];
    assert(nl[0] == '\n');
    assert(nl.contains('\n'));
    if v.len() == 0 {
        text::lemma_pieces_cut(Seq::empty(), '\n', Seq::empty(), nl);
        assert(lines.push(Seq::empty()) =~= seq![Seq::<char>::empty()]);
    } else {
        let init = v.drop_last();
        assert(forall|i: int| 0 <= i < init.len() ==> init[i] == v[i]);
        lemma_kept_lines(init);
        lemma_line_reads_back(v.last());
        let line = tabbed(snap_fields(v.last()));
        lemma_pieces_append(snaps_text(init), line + nl, nl);
        text::lemma_pieces_cut(line, '\n', Seq::empty(), nl);
        text::lemma_pieces_cut(Seq::empty(), '\n', Seq::empty(), nl);
        assert(line + nl + Seq::<char>::empty() =~= line + nl);
        let a = text::pieces(snaps_text(init), nl);
        let b = text::pieces(line + nl, nl);
        assert(b =~= seq![line, Seq::<char>::empty()]);
        assert(a.last() + b[0] =~= line);
        assert(snaps_text(init) + (line + nl) =~= snaps_text(v));
        assert(lines =~= Seq::new(init.len(), |i: int| tabbed(snap_fields(init[i]))).push(line));
        assert(a.drop_last() =~= Seq::new(init.len(), |i: int| tabbed(snap_fields(init[i]))));
        assert(a.drop_last().push(a.last() + b[0]) + b.skip(1) =~= lines.push(Seq::empty()));
    }
}

/// The pieces of two texts in a row: the last of the first joins the first of
/// the second.
proof fn lemma_pieces_append(s: Seq<char>, t: Seq<char>, seps: Seq<char>)
    ensures
        ({
            let a = text::pieces(s, seps);
            let b = text::pieces(t, seps);
            text::pieces(s + t, seps) == a.drop_last().push(a.last() + b[0]) + b.skip(1)
        }),
    decreases s.len(),
{
    text::lemma_sep_from(s, seps, 0);
    text::lemma_sep_from(t, seps, 0);
    text::lemma_sep_from(s + t, seps, 0);
    text::lemma_pieces_nonempty(s, seps);
    text::lemma_pieces_nonempty(t, seps);
    let a = text::pieces(s, seps);
    let b = text::pieces(t, seps);
    match text::sep_from(s, seps, 0) {
        Some(i) => {
            let rest = s.skip(i + 1);
            text::lemma_pieces_nonempty(rest, seps);
            lemma_pieces_append(rest, t, seps);
            assert((s + t)[i] == s[i]);
            assert forall|k: int| 0 <= k < i implies !seps.contains(#[trigger] (s + t)[k]) by {
                assert((s + t)[k] == s[k]);
            }
            assert(text::sep_from(s + t, seps, 0) == Some(i));
            assert((s + t).take(i) =~= s.take(i));
            assert((s + t).skip(i + 1) =~= rest + t);
            let ar = text::pieces(rest, seps);
            assert(a =~= seq![s.take(i)] + ar);
            assert(a.drop_last() =~= seq![s.take(i)] + ar.drop_last());
            assert(a.last() == ar.last());
            assert(a.drop_last().push(a.last() + b[0]) + b.skip(1) =~= seq![s.take(i)] + (
            ar.drop_last().push(ar.last() + b[0]) + b.skip(1)));
        },
        None => {
            assert(a =~= seq![s]);
            assert forall|k: int| 0 <= k < s.len() implies !seps.contains(#[trigger] (s + t)[k]) by {
                assert((s + t)[k] == s[k]);
            }
            match text::sep_from(t, seps, 0) {
                Some(j) => {
                    let n = s.len() as int;
                    assert((s + t)[n + j] == t[j]);
                    assert forall|k: int| 0 <= k < n + j implies !seps.contains(
                        #[trigger] (s + t)[k],
                    ) by {
                        if k >= n {
                            assert((s + t)[k] == t[k - n]);
                        }
                    }
                    assert(text::sep_from(s + t, seps, 0) == Some(n + j));
                    assert((s + t).take(n + j) =~= s + t.take(j));
                    assert((s + t).skip(n + j + 1) =~= t.skip(j + 1));
                    assert(b.skip(1) =~= text::pieces(t.skip(j + 1), seps));
                },
                None => {
                    assert forall|k: int| 0 <= k < (s + t).len() implies !seps.contains(
                        #[trigger] (s + t)[k],
                    ) by {
                        if k >= s.len() {
                            assert((s + t)[k] == t[k - s.len()]);
                        }
                    }
                    assert(text::sep_from(s + t, seps, 0) is None);
                    assert(b =~= seq![t]);
                },
            }
            assert(a.drop_last().push(a.last() + b[0]) + b.skip(1) =~= seq![s + b[0]] + b.skip(1));
        },
    }
}

proof fn lemma_snaps_of_lines(v: Seq<SnapView>)
    requires
        forall|i: int| 0 <= i < v.len() ==> keepable(#[trigger] v[i]),
    ensures
        snaps_of(Seq::new(v.len(), |i: int| tabbed(snap_fields(v[i])))) == v,
    decreases v.len(),
{
    let lines = Seq::new(v.len(), |i: int| tabbed(snap_fields(v[i])));
    if v.len() == 0 {
        assert(snaps_of(lines) =~= v);
    } else {
        let init = v.drop_last();
        assert(forall|i: int| 0 <= i < init.len() ==> init[i] == v[i]);
        lemma_snaps_of_lines(init);
        lemma_line_reads_back(v.last());
        assert(lines.drop_last() =~= Seq::new(init.len(), |i: int| tabbed(snap_fields(init[i]))));
        assert(lines.last() == tabbed(snap_fields(v.last())));
        assert(init.push(v.last()) =~= v);
    }
}

/// Services are read back as they were kept, where their texts hold neither tabs
/// nor line feeds.
pub proof fn law_services_read_back(v: Seq<SnapView>)
    requires
        forall|i: int| 0 <= i < v.len() ==> keepable(#[trigger] v[i]),
    ensures
        snaps_of(text::lines_of(snaps_text(v))) == v,
{
    lemma_kept_lines(v);
    let lines = Seq::new(v.len(), |i: int| tabbed(snap_fields(v[i])));
    let p = text::pieces(snaps_text(v), seq!['\n']);
    assert forall|i: int| 0 <= i < v.len() implies text::without_cr(#[trigger] p[i]) == lines[i] by {
        lemma_line_reads_back(v[i]);
    }
    assert(text::lines_of(snaps_text(v)) =~= lines);
    lemma_snaps_of_lines(v);
}

/// The layout of connection settings: version, counter, flags, the server behind its
/// length, what it leaves out behind its length, and zeros; the flags are three where the
/// proxy is on and one where it is off.
#[verifier::spinoff_prover]
pub proof fn law_blob_layout(enable: bool, server: Seq<u8>, bypass: Seq<u8>, old: Option<Seq<u8>>)
    requires
        server.len() < 0x1_0000_0000,
        bypass.len() < 0x1_0000_0000,
    ensures
        ({
            let b = blob_head(enable, server, bypass, old);
            let n = server.len() as int;
            let m = bypass.len() as int;
            &&& b.len() == 24 + n + m
            &&& codec::le32(b[8], b[9], b[10], b[11]) == (if enable {
                3int
            } else {
                1
            })
            &&& codec::le32(b[12], b[13], b[14], b[15]) == n
            &&& b.subrange(16, 16 + n) == server
            &&& codec::le32(b[16 + n], b[17 + n], b[18 + n], b[19 + n]) == m
            &&& b.subrange(20 + n, 20 + n + m) == bypass
            &&& b[20 + n + m] == 0 && b[21 + n + m] == 0 && b[22 + n + m] == 0 && b[23 + n + m] == 0
        }),
        blob_version(None) == 0x47,
        blob_counter(None) == 1,
{
    let n = server.len() as int;
    let m = bypass.len() as int;
    let flags = if enable {
        3int
    } else {
        1
    };
    assert(n % 0x1_0000_0000 == n && m % 0x1_0000_0000 == m);
    lemma_blob_numbers(
        codec::le32_bytes(blob_version(old)),
        codec::le32_bytes(blob_counter(old)),
        flags,
        server,
        bypass,
    );
}

#[verifier::spinoff_prover]
#[verifier::rlimit(60)]
proof fn lemma_blob_numbers(v: Seq<u8>, c: Seq<u8>, flags: int, server: Seq<u8>, bypass: Seq<u8>)
    requires
        v.len() == 4,
        c.len() == 4,
        0 <= flags < 256,
        server.len() < 0x1_0000_0000,
        bypass.len() < 0x1_0000_0000,
    ensures
        ({
            let n = server.len() as int;
            let m = bypass.len() as int;
            let b = v + c + codec::le32_bytes(flags) + codec::le32_bytes(n) + server
                + codec::le32_bytes(m) + bypass + codec::le32_bytes(0);
            &&& b.len() == 24 + n + m
            &&& codec::le32(b[8], b[9], b[10], b[11]) == flags
            &&& codec::le32(b[12], b[13], b[14], b[15]) == n
            &&& b.subrange(16, 16 + n) == server
            &&& codec::le32(b[16 + n], b[17 + n], b[18 + n], b[19 + n]) == m
            &&& b.subrange(20 + n, 20 + n + m) == bypass
            &&& b[20 + n + m] == 0 && b[21 + n + m] == 0 && b[22 + n + m] == 0 && b[23 + n + m] == 0
        }),
{
    let n = server.len() as int;
    let m = bypass.len() as int;
    let f = codec::le32_bytes(flags);
    let p = codec::le32_bytes(n);
    let q = codec::le32_bytes(m);
    let z = codec::le32_bytes(0);
    assert(z[0] == 0 && z[1] == 0 && z[2] == 0 && z[3] == 0);
    assert(codec::le32(f[0], f[1], f[2], f[3]) == flags) by {
        codec::law_le32_reads_back(flags);
    }
    assert(codec::le32(p[0], p[1], p[2], p[3]) == n) by {
        codec::law_le32_reads_back(n);
    }
    assert(codec::le32(q[0], q[1], q[2], q[3]) == m) by {
        codec::law_le32_reads_back(m);
    }
    lemma_blob_parts(v, c, f, p, server, q, bypass, z);
}

proof fn lemma_blob_parts(
    a: Seq<u8>,
    b: Seq<u8>,
    c: Seq<u8>,
    d: Seq<u8>,
    s: Seq<u8>,
    e: Seq<u8>,
    y: Seq<u8>,
    z: Seq<u8>,
)
    requires
        a.len() == 4,
        b.len() == 4,
        c.len() == 4,
        d.len() == 4,
        e.len() == 4,
        z.len() == 4,
    ensures
        ({
            let t = a + b + c + d + s + e + y + z;
            let n = s.len() as int;
            let m = y.len() as int;
            &&& t.len() == 24 + n + m
            &&& t[8] == c[0] && t[9] == c[1] && t[10] == c[2] && t[11] == c[3]
            &&& t[12] == d[0] && t[13] == d[1] && t[14] == d[2] && t[15] == d[3]
            &&& t.subrange(16, 16 + n) == s
            &&& t[16 + n] == e[0] && t[17 + n] == e[1] && t[18 + n] == e[2] && t[19 + n] == e[3]
            &&& t.subrange(20 + n, 20 + n + m) == y
            &&& t[20 + n + m] == z[0] && t[21 + n + m] == z[1] && t[22 + n + m] == z[2] && t[23 + n
                + m] == z[3]
        }),
{
    let t = a + b + c + d + s + e + y + z;
    let n = s.len() as int;
    let m = y.len() as int;
    assert(t.subrange(16, 16 + n) =~= s);
    assert(t.subrange(20 + n, 20 + n + m) =~= y);
}

/// Turning the proxy on: the former setting is saved and the own one applied, committed and
/// checked; where it is found to be there twice, it is done, and where it is not there at
/// first, it is committed once more.
pub proof fn law_turning_on(keepalive: bool)
    ensures
        ({
            let s0 = ProxySwitch::idle(false, keepalive);
            let (s1, a1) = s0.next(SwitchEvent::TurnOn);
            let (s2, a2) = s1.next(SwitchEvent::Done);
            let (s3, a3) = s2.next(SwitchEvent::Done);
            let (s4, a4) = s3.next(SwitchEvent::Ours(true));
            let (s5, a5) = s4.next(SwitchEvent::Ours(true));
            let (r4, b4) = s3.next(SwitchEvent::Ours(false));
            let (r5, b5) = r4.next(SwitchEvent::Done);
            let (r6, b6) = r5.next(SwitchEvent::Ours(false));
            &&& a1 is SaveAndApply
            &&& a2 is Commit
            &&& a3 is CheckLater
            &&& a4 is Check
            &&& a5 is Finish
            &&& b4 is Commit
            &&& b5 is Check
            &&& b6 is Stolen
            &&& !s1.applied && s2.applied && s5.applied && s5.keepalive
            &&& !r6.applied
        }),
{
}

/// Settings are never shorter than the former ones, and have room for 32 bytes behind what
/// they hold.
pub proof fn law_blob_length(head: int, old: Seq<u8>)
    requires
        0 <= head,
    ensures
        blob_len(head, Some(old)) >= old.len(),
        blob_len(head, Some(old)) >= head + 32,
        blob_len(head, Some(old)) == old.len() || blob_len(head, Some(old)) == head + 32,
        blob_len(head, None) >= 56,
{
}

/// The commands that lead a service to this program: the address and the port for both
/// proxies, and then both on.
pub proof fn law_service_commands(service: Seq<char>)
    ensures
        apply_args(service).len() == 4,
        apply_args(service)[0] == seq!["-setwebproxy"@, service, "127.0.0.1"@, "7887"@],
        apply_args(service)[1] == seq!["-setsecurewebproxy"@, service, "127.0.0.1"@, "7887"@],
        apply_args(service)[2] == seq!["-setwebproxystate"@, service, "on"@],
        apply_args(service)[3] == seq!["-setsecurewebproxystate"@, service, "on"@],
{
}

/// A proxy that was on, with a server and a port, is set again and turned on; any other is
/// turned off.
pub proof fn law_service_is_restored(
    service: Seq<char>,
    set: Seq<char>,
    state: Seq<char>,
    server: Seq<char>,
    port: u16,
    other: StateView,
)
    requires
        server.len() > 0,
        port > 0,
        !other.enabled || other.server.len() == 0 || other.port <= 0,
    ensures
        restore_args(
            service,
            set,
            state,
            StateView { enabled: true, server, port: port as int },
        ) == seq![
            seq![set, service, server, text::dec(port as nat)],
            seq![state, service, "on"@],
        ],
        restore_args(service, set, state, other) == seq![seq![state, service, "off"@]],
{
}

/// The lines of a report tell the state, whatever their order.
pub proof fn law_report_is_read(st: StateView, server: Seq<char>, port: u16)
    requires
        server.len() > 0,
        !text::is_white(server[0]),
        !text::is_white(server.last()),
    ensures
        with_report(st, "Enabled: Yes"@) == (StateView { enabled: true, ..st }),
        with_report(st, "Enabled: No"@) == (StateView { enabled: false, ..st }),
        with_report(st, "Server: "@ + server) == (StateView { server, ..st }),
        with_report(st, "Port: "@ + text::dec(port as nat)) == (StateView {
            port: port as int,
            ..st
        }),
{
    reveal_strlit("Enabled: Yes");
    reveal_strlit("Enabled: No");
    reveal_strlit("Server: ");
    reveal_strlit("Port: ");
    reveal_strlit("Enabled");
    reveal_strlit("Server");
    reveal_strlit("Port");
    reveal_strlit("Yes");
    reveal_strlit("No");
    reveal_strlit("yes");
    reveal_strlit("1");
    let e = Seq::<char>::empty();
    let d = text::dec(port as nat);
    text::law_number_reads_back(port as nat, 0xffff);
    text::law_dec_reads_back(port as nat);
    assert(text::is_digit(d.last()));
    lemma_report_line("Enabled"@, "Yes"@);
    lemma_report_line("Enabled"@, "No"@);
    lemma_report_line("Server"@, server);
    lemma_report_line("Port"@, d);
    assert("Enabled"@ + seq![':', ' '] + "Yes"@ =~= "Enabled: Yes"@);
    assert("Enabled"@ + seq![':', ' '] + "No"@ =~= "Enabled: No"@);
    assert("Server"@ + seq![':', ' '] + server =~= "Server: "@ + server);
    assert("Port"@ + seq![':', ' '] + d =~= "Port: "@ + d);
    assert("Enabled"@[0] == 'E' && "Server"@[0] == 'S' && "Port"@[0] == 'P');
    assert(text::lowered("Yes"@) =~= text::lowered("yes"@));
    assert(text::lowered("No"@).len() == 2 && text::lowered("yes"@).len() == 3);
    assert("No"@.len() == 2 && "1"@.len() == 1);
}

proof fn lemma_report_line(k: Seq<char>, v: Seq<char>)
    requires
        k.len() > 0,
        forall|i: int| 0 <= i < k.len() ==> 'A' <= (#[trigger] k[i]) <= 'z',
        v.len() > 0,
        !text::is_white(v[0]),
        !text::is_white(v.last()),
    ensures
        ({
            let c = text::cut(k + seq![':', ' '] + v, ':');
            c is Some && text::trimmed((c->0).0) == k && text::trimmed((c->0).1) == v
        }),
{
    let e = Seq::<char>::empty();
    let w = seq![' '];
    let s = k + seq![':', ' '] + v;
    assert(s =~= k + seq![':'] + (w + v));
    assert(!k.contains(':')) by {
        assert forall|i: int| 0 <= i < k.len() implies k[i] != ':' by {}
    }
    text::law_cut(k, ':', w + v);
    assert(k.last() == k[k.len() - 1]);
    text::law_trim(e, k, e);
    text::law_trim(w, v, e);
    assert(w + v + e =~= w + v);
}

/// The services are the lines of the listing but for its heading and those that are off.
pub proof fn law_services_of_listing(lines: Seq<Seq<char>>, name: Seq<char>)
    requires
        name.len() > 0,
        !text::is_white(name[0]),
        !text::is_white(name.last()),
    ensures
        name[0] != '*' && name[0] != 'A' ==> services_of(lines.push(name)) == services_of(
            lines,
        ).push(name),
        services_of(lines.push("* "@ + name)) == services_of(lines),
        services_of(lines.push("An asterisk"@ + name)) == services_of(lines),
        services_of(lines.push(Seq::empty())) == services_of(lines),
{
    reveal_strlit("* ");
    reveal_strlit("An asterisk");
    let e = Seq::<char>::empty();
    let a = "* "@ + name;
    let b = "An asterisk"@ + name;
    assert(lines.push(name).drop_last() =~= lines);
    assert(lines.push(a).drop_last() =~= lines);
    assert(lines.push(b).drop_last() =~= lines);
    assert(lines.push(e).drop_last() =~= lines);
    assert(a.last() == name.last() && b.last() == name.last());
    text::law_trim(e, name, e);
    text::law_trim(e, a, e);
    text::law_trim(e, b, e);
    text::law_trim(e, e, e);
    assert(a.subrange(0, 2) =~= "* "@);
    assert(b.subrange(0, 11) =~= "An asterisk"@);
    assert("* "@[0] == '*' && "An asterisk"@[0] == 'A');
    if text::starts(name, "* "@) {
        assert(name.subrange(0, 2)[0] == name[0]);
    }
    if text::starts(name, "An asterisk"@) {
        assert(name.subrange(0, 11)[0] == name[0]);
    }
}

/// What `gsettings` prints in quotes is the text between them, and what it takes is put in
/// quotes unless it is a truth value or a number.
pub proof fn law_gnome_values(s: Seq<char>, n: u16)
    requires
        s.len() > 0,
        forall|i: int| 0 <= i < s.len() ==> 'a' <= (#[trigger] s[i]) <= 'z',
        s != "true"@,
        s != "false"@,
    ensures
        unquoted(seq!['\''] + s + seq!['\'', '\n']) == s,
        unquoted("true\n"@) == "true"@,
        quoted(s) == seq!['\''] + s + seq!['\''],
        quoted(text::dec(n as nat)) == text::dec(n as nat),
        quoted("true"@) == "true"@ && quoted("false"@) == "false"@,
{
    reveal_strlit("true\n");
    reveal_strlit("true");
    reveal_strlit("'");
    reveal_strlit("\\");
    reveal_strlit("\\\\");
    reveal_strlit("\\'");
    let e = Seq::<char>::empty();
    let w = seq!['\n'];
    let q = seq!['\''] + s + seq!['\''];
    assert(seq!['\''] + s + seq!['\'', '\n'] =~= e + q + w);
    assert(q[0] == '\'' && q.last() == '\'');
    text::law_trim(e, q, w);
    assert(q.subrange(1, q.len() - 1) =~= s);
    text::law_trim(e, "true"@, w);
    assert(e + "true"@ + w =~= "true\n"@);
    text::law_number_reads_back(n as nat, 0xffff);
    lemma_letters_kept(s, "\\"@, "\\\\"@);
    lemma_letters_kept(s, "'"@, "\\'"@);
    assert("'"@ + s + "'"@ =~= q);
    assert('a' <= s[0] <= 'z');
    assert(text::short_value(s) is None) by {
        assert(!text::is_digit(s[0]));
        assert(!text::all_digits(s));
    }
}

proof fn lemma_letters_kept(s: Seq<char>, pat: Seq<char>, by: Seq<char>)
    requires
        pat.len() == 1,
        !('a' <= pat[0] <= 'z'),
        forall|i: int| 0 <= i < s.len() ==> 'a' <= (#[trigger] s[i]) <= 'z',
    ensures
        text::replaced(s, pat, by) == s,
    decreases s.len(),
{
    if s.len() > 0 {
        assert(!text::starts(s, pat)) by {
            if text::starts(s, pat) {
                assert(s.subrange(0, 1)[0] == s[0]);
            }
        }
        lemma_letters_kept(s.skip(1), pat, by);
        assert(seq![s[0]] + s.skip(1) =~= s);
    }
}

/// The keys of a setting.
pub proof fn law_gnome_commands(f: Seq<Seq<char>>)
    requires
        f.len() == 7,
    ensures
        gnome_args(f).len() == 7,
        gnome_args(f)[0] == seq!["set"@, "org.gnome.system.proxy"@, "mode"@, quoted(f[0])],
        gnome_args(f)[1] == seq![
            "set"@,
            "org.gnome.system.proxy"@,
            "use-same-proxy"@,
            quoted(f[1]),
        ],
        gnome_args(f)[2] == seq![
            "set"@,
            "org.gnome.system.proxy.http"@,
            "enabled"@,
            quoted(f[4]),
        ],
        gnome_args(f)[3] == seq!["set"@, "org.gnome.system.proxy.http"@, "host"@, quoted(f[2])],
        gnome_args(f)[4] == seq!["set"@, "org.gnome.system.proxy.http"@, "port"@, quoted(f[3])],
        gnome_args(f)[5] == seq!["set"@, "org.gnome.system.proxy.https"@, "host"@, quoted(f[5])],
        gnome_args(f)[6] == seq!["set"@, "org.gnome.system.proxy.https"@, "port"@, quoted(f[6])],
{
}

/// The fields of a service that are kept, in their order.
pub proof fn law_kept_fields(name: Seq<char>, web: Seq<char>, secure: Seq<char>, a: u16, b: u16)
    ensures
        snap_fields(
            SnapView {
                name,
                web: StateView { enabled: true, server: web, port: a as int },
                secure: StateView { enabled: false, server: secure, port: b as int },
            },
        ) == seq![
            name,
            "true"@,
            web,
            text::dec(a as nat),
            "false"@,
            secure,
            text::dec(b as nat),
        ],
{
}

/// What is told of a setting that was taken over names the other program where its port is
/// known.
pub proof fn law_taken_over(enable: nat, host: Seq<char>)
    requires
        !text::has(host, ":7890"@),
    ensures
        stolen_text(enable, host) == "系统代理被其他程序覆盖 (enable="@ + text::dec(enable)
            + " server="@ + host + ")"@,
        stolen_text(enable, "127.0.0.1:7890"@)
            == "系统代理被 Clash Party 覆盖. 请先退出 Clash Party, 再开代理模式."@,
{
    reveal_strlit("127.0.0.1:7890");
    reveal_strlit(":7890");
    let s = "127.0.0.1:7890"@;
    assert(s.subrange(9, 14) =~= ":7890"@);
    text::law_first_is_found(s, ":7890"@, 9);
}

} // verus!
