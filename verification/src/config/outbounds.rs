//! Nodes from the JSON configurations of other clients.

use vstd::prelude::*;

use crate::config::node;
use crate::config::node::{NodeView, ProxyNode};
use crate::json;
use crate::json::{Json, JsonView};
use crate::text;

verus! {

/// The server, port and secrets that an outbound's settings give.
pub struct Account {
    pub server: String,
    pub port: u16,
    pub uuid: Option<String>,
    pub password: Option<String>,
    pub flow: Option<String>,
    pub cipher: Option<String>,
    pub alter_id: u16,
    pub username: Option<String>,
}

#[verifier::ext_equal]
pub struct AccountView {
    pub server: Seq<char>,
    pub port: u16,
    pub uuid: Option<Seq<char>>,
    pub password: Option<Seq<char>>,
    pub flow: Option<Seq<char>>,
    pub cipher: Option<Seq<char>>,
    pub alter_id: u16,
    pub username: Option<Seq<char>>,
}

impl View for Account {
    type V = AccountView;

    open spec fn view(&self) -> AccountView {
        AccountView {
            server: self.server@,
            port: self.port,
            uuid: text::opt_view(self.uuid),
            password: text::opt_view(self.password),
            flow: text::opt_view(self.flow),
            cipher: text::opt_view(self.cipher),
            alter_id: self.alter_id,
            username: text::opt_view(self.username),
        }
    }
}

/// The first text that is there.
pub open spec fn either(a: Option<Seq<char>>, b: Option<Seq<char>>) -> Option<Seq<char>> {
    if a is Some {
        a
    } else {
        b
    }
}

fn or_else(a: Option<String>, b: Option<String>) -> (r: Option<String>)
    ensures
        text::opt_view(r) == either(text::opt_view(a), text::opt_view(b)),
{
    if a.is_some() {
        a
    } else {
        b
    }
}

/// The first server of the settings; without a list, the settings themselves.
pub open spec fn server_entry(settings: JsonView) -> JsonView {
    match json::first_at(settings, "servers"@) {
        Some(s) => s,
        None => settings,
    }
}

fn server_of<'a>(settings: &'a Json) -> (r: &'a Json)
    ensures
        r@ == server_entry(settings@),
{
    match json::jfirst(settings, "servers") {
        Some(s) => s,
        None => settings,
    }
}

/// The account of a server entry that names its address and port.
pub open spec fn server_account(s: JsonView) -> Option<AccountView> {
    match json::text_at(s, "address"@) {
        Some(server) => Some(
            AccountView {
                server,
                port: json::int_at(s, "port"@) as u16,
                uuid: None,
                password: None,
                flow: None,
                cipher: None,
                alter_id: 0,
                username: None,
            },
        ),
        None => None,
    }
}

/// The account in the settings of an outbound: under `vnext` and its users for
/// VLESS and VMess, in a server entry for the others.
pub open spec fn account_of(protocol: Seq<char>, settings: JsonView) -> Option<AccountView> {
    if protocol == "vless"@ || protocol == "vmess"@ {
        match json::first_at(settings, "vnext"@) {
            Some(v) => match (server_account(v), json::first_at(v, "users"@)) {
                (Some(a), Some(u)) => Some(
                    AccountView {
                        uuid: json::text_at(u, "id"@),
                        flow: json::text_at(u, "flow"@),
                        cipher: either(
                            json::text_at(u, "security"@),
                            json::text_at(u, "encryption"@),
                        ),
                        alter_id: json::unsigned_at(u, "alterId"@) as u16,
                        ..a
                    },
                ),
                _ => None,
            },
            None => None,
        }
    } else if protocol == "ss"@ {
        let s = server_entry(settings);
        match server_account(s) {
            Some(a) => Some(
                AccountView {
                    password: json::text_at(s, "password"@),
                    cipher: json::text_at(s, "method"@),
                    ..a
                },
            ),
            None => None,
        }
    } else if protocol == "socks5"@ || protocol == "http"@ {
        let s = server_entry(settings);
        let user = json::first_at(s, "users"@);
        match server_account(s) {
            Some(a) => Some(
                AccountView {
                    password: either(
                        match user {
                            Some(u) => json::text_at(u, "pass"@),
                            None => None,
                        },
                        json::text_at(s, "password"@),
                    ),
                    username: either(
                        match user {
                            Some(u) => json::text_at(u, "user"@),
                            None => None,
                        },
                        json::text_at(s, "user"@),
                    ),
                    ..a
                },
            ),
            None => None,
        }
    } else {
        match json::first_at(settings, "servers"@) {
            Some(s) => match server_account(s) {
                Some(a) => Some(AccountView { password: json::text_at(s, "password"@), ..a }),
                None => None,
            },
            None => None,
        }
    }
}

pub open spec fn opt_account(o: Option<Account>) -> Option<AccountView> {
    match o {
        Some(a) => Some(a@),
        None => None,
    }
}

fn account_in(s: &Json) -> (r: Option<Account>)
    ensures
        opt_account(r) == server_account(s@),
{
    match json::jstr(s, "address") {
        Some(server) => {
            let r = Account {
                server,
                port: json::jint(s, "port") as u16,
                uuid: None,
                password: None,
                flow: None,
                cipher: None,
                alter_id: 0,
                username: None,
            };
            Some(r)
        },
        None => None,
    }
}

fn read_account(protocol: &[char], settings: &Json) -> (r: Option<Account>)
    ensures
        opt_account(r) == account_of(protocol@, settings@),
{
    if text::is(protocol, "vless") || text::is(protocol, "vmess") {
        let v = match json::jfirst(settings, "vnext") {
            Some(v) => v,
            None => return None,
        };
        let mut a = match account_in(v) {
            Some(a) => a,
            None => return None,
        };
        match json::jfirst(v, "users") {
            Some(u) => {
                a.uuid = json::jstr(u, "id");
                a.flow = json::jstr(u, "flow");
                a.cipher = or_else(json::jstr(u, "security"), json::jstr(u, "encryption"));
                a.alter_id = json::junsigned(u, "alterId") as u16;
                Some(a)
            },
            None => None,
        }
    } else if text::is(protocol, "ss") {
        let s = server_of(settings);
        match account_in(s) {
            Some(a) => {
                let mut a = a;
                a.password = json::jstr(s, "password");
                a.cipher = json::jstr(s, "method");
                Some(a)
            },
            None => None,
        }
    } else if text::is(protocol, "socks5") || text::is(protocol, "http") {
        let s = server_of(settings);
        let mut pass: Option<String> = None;
        let mut user: Option<String> = None;
        if let Some(u) = json::jfirst(s, "users") {
            pass = json::jstr(u, "pass");
            user = json::jstr(u, "user");
        }
        match account_in(s) {
            Some(a) => {
                let mut a = a;
                a.password = or_else(pass, json::jstr(s, "password"));
                a.username = or_else(user, json::jstr(s, "user"));
                Some(a)
            },
            None => None,
        }
    } else {
        match json::jfirst(settings, "servers") {
            Some(s) => match account_in(s) {
                Some(a) => {
                    let mut a = a;
                    a.password = json::jstr(s, "password");
                    Some(a)
                },
                None => None,
            },
            None => None,
        }
    }
}

/// A text, or another one where there is none.
pub open spec fn text_or(o: Option<Seq<char>>, d: Seq<char>) -> Seq<char> {
    match o {
        Some(s) => s,
        None => d,
    }
}

fn string_or(o: Option<String>, d: &str) -> (r: String)
    ensures
        r@ == text_or(text::opt_view(o), d@),
{
    match o {
        Some(s) => s,
        None => d.to_owned(),
    }
}

/// A tag that is not blank, else the server.
pub open spec fn node_name(tag: Option<Seq<char>>, server: Seq<char>) -> Seq<char> {
    if tag is Some && text::trimmed(tag->0).len() > 0 {
        tag->0
    } else {
        server
    }
}

fn name_or_server(tag: Option<String>, server: &String) -> (r: String)
    ensures
        r@ == node_name(text::opt_view(tag), server@),
{
    match tag {
        Some(t) => {
            let c = text::chars_of(t.as_str());
            if text::trim(c.as_slice()).len() > 0 {
                t
            } else {
                server.clone()
            }
        },
        None => server.clone(),
    }
}

/// Adds what `streamSettings` say of the transport and its security.
pub open spec fn with_stream(n: NodeView, stream: JsonView) -> NodeView {
    let network = text_or(json::text_at(stream, "network"@), "tcp"@);
    let security = text::lowered(text_or(json::text_at(stream, "security"@), "none"@));
    let rs = stream.entry("realitySettings"@);
    let ts = stream.entry("tlsSettings"@);
    let ws = stream.entry("wsSettings"@);
    let a = NodeView {
        network,
        security: Some(security),
        tls: security == "tls"@ || security == "reality"@,
        ..n
    };
    let b = if security == "reality"@ {
        match rs {
            Some(rs) => NodeView {
                server_name: json::text_at(rs, "serverName"@),
                client_fingerprint: json::text_at(rs, "fingerprint"@),
                reality_public_key: json::text_at(rs, "publicKey"@),
                reality_short_id: json::text_at(rs, "shortId"@),
                ..a
            },
            None => a,
        }
    } else if security == "tls"@ && ts is Some {
        NodeView {
            server_name: json::text_at(ts->0, "serverName"@),
            client_fingerprint: json::text_at(ts->0, "fingerprint"@),
            skip_cert_verify: json::bool_at(ts->0, "allowInsecure"@) == Some(true),
            ..a
        }
    } else {
        a
    };
    if (network == "ws"@ || network == "websocket"@) && ws is Some {
        NodeView {
            network: "ws"@,
            ws_path: json::text_at(ws->0, "path"@),
            ws_host: json::text_in(ws->0, "headers"@, "Host"@),
            ..b
        }
    } else {
        b
    }
}

/// The node of an outbound with `protocol`, `settings` and `streamSettings`.
pub open spec fn xray_node(ob: JsonView) -> Option<NodeView> {
    match (json::text_at(ob, "protocol"@), ob.entry("settings"@)) {
        (Some(p), Some(settings)) => {
            let protocol = node::normal_type(p);
            match account_of(protocol, settings) {
                Some(a) => if !node::known_type(protocol) || text::trimmed(a.server).len() == 0
                    || a.port == 0 {
                    None
                } else {
                    let n = NodeView {
                        name: node_name(json::text_at(ob, "tag"@), a.server),
                        kind: protocol,
                        server: a.server,
                        port: a.port,
                        uuid: a.uuid,
                        password: a.password,
                        flow: a.flow,
                        security: Some("none"@),
                        cipher: a.cipher,
                        username: a.username,
                        alter_id: a.alter_id,
                        ..node::blank_node()
                    };
                    Some(
                        match ob.entry("streamSettings"@) {
                            Some(stream) => with_stream(n, stream),
                            None => n,
                        },
                    )
                },
                None => None,
            }
        },
        _ => None,
    }
}

fn is_true(o: Option<bool>) -> (r: bool)
    ensures
        r == (o == Some(true)),
{
    match o {
        Some(b) => b,
        None => false,
    }
}

fn apply_stream(node: ProxyNode, stream: &Json) -> (r: ProxyNode)
    ensures
        r@ == with_stream(node@, stream@),
{
    let mut n = node;
    let network = string_or(json::jstr(stream, "network"), "tcp");
    let sec = string_or(json::jstr(stream, "security"), "none");
    let sec = text::chars_of(sec.as_str());
    let security = text::lower(sec.as_slice());
    let security = security.as_slice();
    let reality = text::is(security, "reality");
    let tls = text::is(security, "tls");
    n.tls = tls || reality;
    n.security = Some(text::string_of(security));
    if reality {
        if let Some(rs) = stream.get("realitySettings") {
            n.server_name = json::jstr(rs, "serverName");
            n.client_fingerprint = json::jstr(rs, "fingerprint");
            n.reality_public_key = json::jstr(rs, "publicKey");
            n.reality_short_id = json::jstr(rs, "shortId");
        }
    } else if tls {
        if let Some(ts) = stream.get("tlsSettings") {
            n.server_name = json::jstr(ts, "serverName");
            n.client_fingerprint = json::jstr(ts, "fingerprint");
            n.skip_cert_verify = is_true(json::jbool(ts, "allowInsecure"));
        }
    }
    let net = text::chars_of(network.as_str());
    n.network = network;
    if text::is(net.as_slice(), "ws") || text::is(net.as_slice(), "websocket") {
        if let Some(ws) = stream.get("wsSettings") {
            n.network = "ws".to_owned();
            n.ws_path = json::jstr(ws, "path");
            n.ws_host = json::jstr_in(ws, "headers", "Host");
        }
    }
    n
}

pub fn map_xray(ob: &Json) -> (r: Option<ProxyNode>)
    ensures
        node::opt_node(r) == xray_node(ob@),
{
    let p = match json::jstr(ob, "protocol") {
        Some(p) => text::chars_of(p.as_str()),
        None => return None,
    };
    let protocol = node::normalize_type(p.as_slice());
    let settings = match ob.get("settings") {
        Some(s) => s,
        None => return None,
    };
    let a = match read_account(protocol.as_slice(), settings) {
        Some(a) => a,
        None => return None,
    };
    if !node::is_known_type(protocol.as_slice()) {
        return None;
    }
    let server = text::chars_of(a.server.as_str());
    if text::trim(server.as_slice()).len() == 0 || a.port == 0 {
        return None;
    }
    let mut n = ProxyNode::default();
    n.name = name_or_server(json::jstr(ob, "tag"), &a.server);
    n.kind = text::string_of(protocol.as_slice());
    n.server = a.server;
    n.port = a.port;
    n.uuid = a.uuid;
    n.password = a.password;
    n.flow = a.flow;
    n.security = Some("none".to_owned());
    n.cipher = a.cipher;
    n.username = a.username;
    n.alter_id = a.alter_id;
    match ob.get("streamSettings") {
        Some(stream) => Some(apply_stream(n, stream)),
        None => Some(n),
    }
}

/// Adds what `transport` says.
pub open spec fn with_transport(n: NodeView, tr: JsonView) -> NodeView {
    let network = text::lowered(text_or(json::text_at(tr, "type"@), "tcp"@));
    if network == "ws"@ || network == "websocket"@ {
        NodeView {
            network: "ws"@,
            ws_path: json::text_at(tr, "path"@),
            ws_host: json::text_in(tr, "headers"@, "Host"@),
            ..n
        }
    } else {
        NodeView { network, ..n }
    }
}

/// Adds what `tls` says, unless it is switched off.
pub open spec fn with_tls(n: NodeView, t: JsonView) -> NodeView {
    if json::bool_at(t, "enabled"@) == Some(false) {
        n
    } else {
        let a = NodeView {
            tls: true,
            security: Some("tls"@),
            server_name: json::text_at(t, "server_name"@),
            client_fingerprint: json::text_in(t, "utls"@, "fingerprint"@),
            skip_cert_verify: json::bool_at(t, "insecure"@) == Some(true),
            ..n
        };
        match t.entry("reality"@) {
            Some(r) => if json::bool_at(r, "enabled"@) == Some(false) {
                a
            } else {
                NodeView {
                    security: Some("reality"@),
                    reality_public_key: json::text_at(r, "public_key"@),
                    reality_short_id: json::text_at(r, "short_id"@),
                    ..a
                }
            },
            None => a,
        }
    }
}

/// The node of an outbound with `type`, `server` and `server_port`.
pub open spec fn singbox_node(ob: JsonView) -> Option<NodeView> {
    match (json::text_at(ob, "type"@), json::text_at(ob, "server"@)) {
        (Some(t), Some(server)) => {
            let ty = node::normal_type(t);
            let port = json::int_at(ob, "server_port"@) as u16;
            if !node::known_type(ty) || text::trimmed(server).len() == 0 || port == 0 {
                None
            } else {
                let n = NodeView {
                    name: node_name(json::text_at(ob, "tag"@), server),
                    kind: ty,
                    server,
                    port,
                    uuid: json::text_at(ob, "uuid"@),
                    password: json::text_at(ob, "password"@),
                    flow: json::text_at(ob, "flow"@),
                    security: Some("none"@),
                    cipher: either(json::text_at(ob, "method"@), json::text_at(ob, "cipher"@)),
                    username: json::text_at(ob, "username"@),
                    alter_id: json::unsigned_at(ob, "alter_id"@) as u16,
                    plugin: json::text_at(ob, "plugin"@),
                    plugin_opts: json::text_at(ob, "plugin_opts"@),
                    ..node::blank_node()
                };
                let a = match ob.entry("transport"@) {
                    Some(tr) => with_transport(n, tr),
                    None => n,
                };
                Some(
                    match ob.entry("tls"@) {
                        Some(tl) => with_tls(a, tl),
                        None => a,
                    },
                )
            }
        },
        _ => None,
    }
}

fn apply_transport(node: ProxyNode, tr: &Json) -> (r: ProxyNode)
    ensures
        r@ == with_transport(node@, tr@),
{
    let mut n = node;
    let ty = string_or(json::jstr(tr, "type"), "tcp");
    let ty = text::chars_of(ty.as_str());
    let network = text::lower(ty.as_slice());
    if text::is(network.as_slice(), "ws") || text::is(network.as_slice(), "websocket") {
        n.network = "ws".to_owned();
        n.ws_path = json::jstr(tr, "path");
        n.ws_host = json::jstr_in(tr, "headers", "Host");
    } else {
        n.network = text::string_of(network.as_slice());
    }
    n
}

fn is_off(o: Option<bool>) -> (r: bool)
    ensures
        r == (o == Some(false)),
{
    match o {
        Some(b) => !b,
        None => false,
    }
}

fn apply_tls(node: ProxyNode, t: &Json) -> (r: ProxyNode)
    ensures
        r@ == with_tls(node@, t@),
{
    let mut n = node;
    if is_off(json::jbool(t, "enabled")) {
        return n;
    }
    n.tls = true;
    n.security = Some("tls".to_owned());
    n.server_name = json::jstr(t, "server_name");
    n.client_fingerprint = json::jstr_in(t, "utls", "fingerprint");
    n.skip_cert_verify = is_true(json::jbool(t, "insecure"));
    if let Some(r) = t.get("reality") {
        if !is_off(json::jbool(r, "enabled")) {
            n.security = Some("reality".to_owned());
            n.reality_public_key = json::jstr(r, "public_key");
            n.reality_short_id = json::jstr(r, "short_id");
        }
    }
    n
}

pub fn map_singbox(ob: &Json) -> (r: Option<ProxyNode>)
    ensures
        node::opt_node(r) == singbox_node(ob@),
{
    let t = match json::jstr(ob, "type") {
        Some(t) => text::chars_of(t.as_str()),
        None => return None,
    };
    let ty = node::normalize_type(t.as_slice());
    if !node::is_known_type(ty.as_slice()) {
        return None;
    }
    let server = match json::jstr(ob, "server") {
        Some(s) => s,
        None => return None,
    };
    let port: u16 = json::jint(ob, "server_port") as u16;
    let sc = text::chars_of(server.as_str());
    if text::trim(sc.as_slice()).len() == 0 || port == 0 {
        return None;
    }
    let mut n = ProxyNode::default();
    n.name = name_or_server(json::jstr(ob, "tag"), &server);
    n.kind = text::string_of(ty.as_slice());
    n.server = server;
    n.port = port;
    n.uuid = json::jstr(ob, "uuid");
    n.password = json::jstr(ob, "password");
    n.flow = json::jstr(ob, "flow");
    n.security = Some("none".to_owned());
    n.cipher = or_else(json::jstr(ob, "method"), json::jstr(ob, "cipher"));
    n.username = json::jstr(ob, "username");
    n.alter_id = json::junsigned(ob, "alter_id") as u16;
    n.plugin = json::jstr(ob, "plugin");
    n.plugin_opts = json::jstr(ob, "plugin_opts");
    let n = match ob.get("transport") {
        Some(tr) => apply_transport(n, tr),
        None => n,
    };
    match ob.get("tls") {
        Some(t) => Some(apply_tls(n, t)),
        None => Some(n),
    }
}

/// The node of a server in a Shadowsocks server list.
pub open spec fn sip008_node(s: JsonView) -> Option<NodeView> {
    let port = json::int_at(s, "server_port"@) as u16;
    match (json::text_at(s, "server"@), json::text_at(s, "password"@)) {
        (Some(server), Some(password)) => if server.len() == 0 || port == 0 {
            None
        } else {
            let remarks = json::text_at(s, "remarks"@);
            Some(
                NodeView {
                    name: if remarks is Some && remarks->0.len() > 0 {
                        remarks->0
                    } else {
                        server
                    },
                    kind: "ss"@,
                    server,
                    port,
                    password: Some(password),
                    cipher: json::text_at(s, "method"@),
                    plugin: json::text_at(s, "plugin"@),
                    plugin_opts: json::text_at(s, "plugin_opts"@),
                    ..node::blank_node()
                },
            )
        },
        _ => None,
    }
}

pub fn sip008_server(s: &Json) -> (r: Option<ProxyNode>)
    ensures
        node::opt_node(r) == sip008_node(s@),
{
    let server = match json::jstr(s, "server") {
        Some(x) => x,
        None => return None,
    };
    let port: u16 = json::jint(s, "server_port") as u16;
    let password = match json::jstr(s, "password") {
        Some(x) => x,
        None => return None,
    };
    if server.as_str().is_empty() || port == 0 {
        return None;
    }
    let mut n = ProxyNode::default();
    n.name = server.clone();
    if let Some(m) = json::jstr(s, "remarks") {
        if !m.as_str().is_empty() {
            n.name = m;
        }
    }
    n.kind = "ss".to_owned();
    n.server = server;
    n.port = port;
    n.password = Some(password);
    n.cipher = json::jstr(s, "method");
    n.plugin = json::jstr(s, "plugin");
    n.plugin_opts = json::jstr(s, "plugin_opts");
    Some(n)
}

/// The node of an entry under `outbounds`.
pub open spec fn outbound_node(ob: JsonView) -> Option<NodeView> {
    if ob.entry("protocol"@) is Some {
        xray_node(ob)
    } else if ob.entry("type"@) is Some {
        singbox_node(ob)
    } else {
        None
    }
}

fn map_outbound(ob: &Json) -> (r: Option<ProxyNode>)
    ensures
        node::opt_node(r) == outbound_node(ob@),
{
    if ob.get("protocol").is_some() {
        map_xray(ob)
    } else if ob.get("type").is_some() {
        map_singbox(ob)
    } else {
        None
    }
}

/// The nodes of a list's entries, where they have one.
pub open spec fn mapped(v: Seq<JsonView>, servers: bool) -> Seq<NodeView>
    decreases v.len(),
{
    if v.len() == 0 {
        Seq::empty()
    } else {
        let head = mapped(v.drop_last(), servers);
        let n = if servers {
            sip008_node(v.last())
        } else {
            outbound_node(v.last())
        };
        match n {
            Some(x) => head.push(x),
            None => head,
        }
    }
}

/// Every node of a list is of a known type.
pub proof fn lemma_mapped_known(v: Seq<JsonView>, servers: bool)
    ensures
        node::all_known(mapped(v, servers)),
    decreases v.len(),
{
    if v.len() > 0 {
        lemma_mapped_known(v.drop_last(), servers);
    }
}

fn map_all(v: &Vec<Json>, servers: bool) -> (r: Vec<ProxyNode>)
    ensures
        node::node_views(r@) == mapped(json::json_views(v@), servers),
{
    let ghost views = json::json_views(v@);
    let mut r: Vec<ProxyNode> = Vec::new();
    let mut i: usize = 0;
    proof {
        assert(node::node_views(r@) =~= mapped(views.take(0), servers));
    }
    while i < v.len()
        invariant
            i <= v@.len(),
            views == json::json_views(v@),
            node::node_views(r@) == mapped(views.take(i as int), servers),
        decreases v@.len() - i,
    {
        let ghost before = node::node_views(r@);
        proof {
            assert(views.take(i + 1).drop_last() =~= views.take(i as int));
            assert(views.take(i + 1).last() == v@[i as int]@);
        }
        let n = if servers {
            sip008_server(&v[i])
        } else {
            map_outbound(&v[i])
        };
        if let Some(x) = n {
            r.push(x);
            proof {
                assert(node::node_views(r@) =~= before.push(x@));
            }
        }
        i += 1;
    }
    proof {
        assert(views.take(i as int) =~= views);
    }
    r
}

/// The nodes of a server list.
pub fn parse_sip008(v: &Json) -> (r: Vec<ProxyNode>)
    ensures
        node::node_views(r@) == (match json::list_at(v@, "servers"@) {
            Some(s) => mapped(s, true),
            None => Seq::empty(),
        }),
{
    match json::jlist(v, "servers") {
        Some(s) => map_all(s, true),
        None => {
            let r: Vec<ProxyNode> = Vec::new();
            assert(node::node_views(r@) =~= Seq::<NodeView>::empty());
            r
        },
    }
}

/// The usable nodes of a configuration with `outbounds`, or else `servers`.
pub open spec fn document_nodes(v: Option<JsonView>) -> Seq<NodeView> {
    match v {
        Some(d) => match json::list_at(d, "outbounds"@) {
            Some(obs) => node::kept(mapped(obs, false)),
            None => match json::list_at(d, "servers"@) {
                Some(s) => node::kept(mapped(s, true)),
                None => Seq::empty(),
            },
        },
        None => Seq::empty(),
    }
}

/// The usable nodes of a parsed configuration.
pub fn nodes_of_document(v: &Option<Json>) -> (r: Vec<ProxyNode>)
    ensures
        node::node_views(r@) == document_nodes(json::opt_json(*v)),
{
    if let Some(d) = v {
        if let Some(obs) = json::jlist(d, "outbounds") {
            return node::filter_all(map_all(obs, false));
        }
        if json::jlist(d, "servers").is_some() {
            return node::filter_all(parse_sip008(d));
        }
    }
    let r: Vec<ProxyNode> = Vec::new();
    assert(node::node_views(r@) =~= Seq::<NodeView>::empty());
    r
}

/// The usable nodes of a JSON configuration; none where the text is no JSON.
pub fn try_parse_json(s: &str) -> (r: Vec<ProxyNode>)
    ensures
        node::node_views(r@) == document_nodes(json::json_value(s@)),
{
    let v = json::parse_json(s);
    nodes_of_document(&v)
}

// ---- laws ----
/// The node of an outbound with `type`, `server` and `server_port`, key by key.
pub proof fn law_singbox_reads_back(ob: JsonView)
    requires
        singbox_node(ob) is Some,
        0 < json::int_at(ob, "server_port"@) < 0x1_0000,
    ensures
        ({
            let n = singbox_node(ob)->0;
            let tr = ob.entry("transport"@);
            let t = ob.entry("tls"@);
            &&& n.kind == node::normal_type(json::text_at(ob, "type"@)->0)
            &&& Some(n.server) == json::text_at(ob, "server"@)
            &&& n.port == json::int_at(ob, "server_port"@)
            &&& n.uuid == json::text_at(ob, "uuid"@)
            &&& n.password == json::text_at(ob, "password"@)
            &&& n.flow == json::text_at(ob, "flow"@)
            &&& n.username == json::text_at(ob, "username"@)
            &&& n.plugin == json::text_at(ob, "plugin"@)
            &&& n.plugin_opts == json::text_at(ob, "plugin_opts"@)
            &&& (json::text_at(ob, "method"@) is Some ==> n.cipher == json::text_at(
                ob,
                "method"@,
            ))
            &&& (json::text_at(ob, "method"@) is None ==> n.cipher == json::text_at(
                ob,
                "cipher"@,
            ))
            &&& (json::text_at(ob, "tag"@) is None ==> n.name == n.server)
            &&& (json::text_at(ob, "tag"@) is Some && text::trimmed(
                json::text_at(ob, "tag"@)->0,
            ).len() > 0 ==> Some(n.name) == json::text_at(ob, "tag"@))
            &&& (t is None ==> !n.tls && n.server_name is None && n.reality_public_key is None)
            &&& (t is Some && json::bool_at(t->0, "enabled"@) != Some(false) ==> n.tls
                && n.server_name == json::text_at(t->0, "server_name"@) && n.skip_cert_verify == (
            json::bool_at(t->0, "insecure"@) == Some(true)) && n.client_fingerprint
                == json::text_in(t->0, "utls"@, "fingerprint"@))
            &&& (t is Some && json::bool_at(t->0, "enabled"@) == Some(false) ==> !n.tls)
            &&& (t is Some && json::bool_at(t->0, "enabled"@) != Some(false) && t->0.entry(
                "reality"@,
            ) is Some && json::bool_at(t->0.entry("reality"@)->0, "enabled"@) != Some(false)
                ==> n.reality_public_key == json::text_at(
                t->0.entry("reality"@)->0,
                "public_key"@,
            ) && n.reality_short_id == json::text_at(t->0.entry("reality"@)->0, "short_id"@)
                && n.security == Some("reality"@))
            &&& (tr is None ==> n.network == "tcp"@)
            &&& (tr is Some && json::text_at(tr->0, "type"@) == Some("ws"@) ==> n.network == "ws"@
                && n.ws_path == json::text_at(tr->0, "path"@) && n.ws_host == json::text_in(
                tr->0,
                "headers"@,
                "Host"@,
            ))
        }),
{
    reveal_strlit("ws");
    assert(text::lowered("ws"@) =~= "ws"@);
}

/// The account of a VLESS or VMess outbound stands under the first server of `vnext` and
/// its first user, that of a Trojan or Shadowsocks outbound in its first server.
pub proof fn law_account_reads_back(settings: JsonView, v: JsonView, u: JsonView, s: JsonView)
    requires
        json::first_at(settings, "vnext"@) == Some(v),
        json::first_at(v, "users"@) == Some(u),
        json::text_at(v, "address"@) is Some,
        0 <= json::int_at(v, "port"@) < 0x1_0000,
        json::first_at(settings, "servers"@) == Some(s),
        json::text_at(s, "address"@) is Some,
        0 <= json::int_at(s, "port"@) < 0x1_0000,
        json::unsigned_at(u, "alterId"@) < 0x1_0000,
    ensures
        ({
            let a = account_of("vless"@, settings);
            &&& a is Some
            &&& Some(a->0.server) == json::text_at(v, "address"@)
            &&& a->0.port == json::int_at(v, "port"@)
            &&& a->0.uuid == json::text_at(u, "id"@)
            &&& a->0.flow == json::text_at(u, "flow"@)
        }),
        ({
            let a = account_of("vmess"@, settings);
            &&& a is Some
            &&& Some(a->0.server) == json::text_at(v, "address"@)
            &&& a->0.port == json::int_at(v, "port"@)
            &&& a->0.uuid == json::text_at(u, "id"@)
            &&& a->0.alter_id == json::unsigned_at(u, "alterId"@)
            &&& (json::text_at(u, "security"@) is Some ==> a->0.cipher == json::text_at(
                u,
                "security"@,
            ))
        }),
        ({
            let a = account_of("trojan"@, settings);
            &&& a is Some
            &&& Some(a->0.server) == json::text_at(s, "address"@)
            &&& a->0.port == json::int_at(s, "port"@)
            &&& a->0.password == json::text_at(s, "password"@)
        }),
        ({
            let a = account_of("ss"@, settings);
            &&& a is Some
            &&& Some(a->0.server) == json::text_at(s, "address"@)
            &&& a->0.port == json::int_at(s, "port"@)
            &&& a->0.password == json::text_at(s, "password"@)
            &&& a->0.cipher == json::text_at(s, "method"@)
        }),
{
    reveal_strlit("vless");
    reveal_strlit("vmess");
    reveal_strlit("ss");
    reveal_strlit("socks5");
    reveal_strlit("http");
    reveal_strlit("trojan");
    assert("trojan"@[0] == 't' && "socks5"@[0] == 's');
    assert("vless"@.len() == 5 && "vmess"@.len() == 5 && "ss"@.len() == 2);
    assert("socks5"@.len() == 6 && "http"@.len() == 4 && "trojan"@.len() == 6);
}

/// The account of a SOCKS or HTTP outbound names user and password in its first user, or in
/// the server entry itself.
pub proof fn law_proxy_account_reads_back(settings: JsonView, s: JsonView, u: JsonView)
    requires
        json::first_at(settings, "servers"@) == Some(s),
        json::text_at(s, "address"@) is Some,
        json::first_at(s, "users"@) == Some(u),
        json::text_at(u, "user"@) is Some,
        json::text_at(u, "pass"@) is Some,
    ensures
        ({
            let a = account_of("socks5"@, settings);
            let h = account_of("http"@, settings);
            &&& a is Some && h is Some
            &&& a->0.username == json::text_at(u, "user"@) && h->0.username == json::text_at(
                u,
                "user"@,
            )
            &&& a->0.password == json::text_at(u, "pass"@) && h->0.password == json::text_at(
                u,
                "pass"@,
            )
        }),
{
    reveal_strlit("vless");
    reveal_strlit("vmess");
    reveal_strlit("ss");
    reveal_strlit("socks5");
    reveal_strlit("http");
    assert("vless"@.len() == 5 && "vmess"@.len() == 5 && "ss"@.len() == 2);
    assert("socks5"@.len() == 6 && "http"@.len() == 4);
}

/// What `streamSettings` say of the transport and its security, key by key.
pub proof fn law_stream_reads_back(n: NodeView, stream: JsonView)
    ensures
        ({
            let r = with_stream(n, stream);
            let rs = stream.entry("realitySettings"@);
            let ts = stream.entry("tlsSettings"@);
            let ws = stream.entry("wsSettings"@);
            let security = json::text_at(stream, "security"@);
            &&& (security == Some("reality"@) && rs is Some ==> r.tls && r.security == Some(
                "reality"@,
            ) && r.server_name == json::text_at(rs->0, "serverName"@) && r.client_fingerprint
                == json::text_at(rs->0, "fingerprint"@) && r.reality_public_key == json::text_at(
                rs->0,
                "publicKey"@,
            ) && r.reality_short_id == json::text_at(rs->0, "shortId"@))
            &&& (security == Some("tls"@) && ts is Some ==> r.tls && r.security == Some("tls"@)
                && r.server_name == json::text_at(ts->0, "serverName"@) && r.client_fingerprint
                == json::text_at(ts->0, "fingerprint"@) && r.skip_cert_verify == (json::bool_at(
                ts->0,
                "allowInsecure"@,
            ) == Some(true)))
            &&& (security is None ==> !r.tls && r.security == Some("none"@))
            &&& (json::text_at(stream, "network"@) == Some("ws"@) && ws is Some ==> r.network
                == "ws"@ && r.ws_path == json::text_at(ws->0, "path"@) && r.ws_host
                == json::text_in(ws->0, "headers"@, "Host"@))
            &&& (json::text_at(stream, "network"@) is None ==> r.network == "tcp"@)
            &&& r.uuid == n.uuid && r.password == n.password && r.server == n.server && r.port
                == n.port && r.kind == n.kind && r.name == n.name && r.flow == n.flow && r.cipher
                == n.cipher
        }),
{
    reveal_strlit("reality");
    reveal_strlit("tls");
    reveal_strlit("none");
    reveal_strlit("tcp");
    reveal_strlit("ws");
    reveal_strlit("websocket");
    assert("reality"@.len() == 7 && "tls"@.len() == 3 && "none"@.len() == 4);
    assert("tcp"@.len() == 3 && "ws"@.len() == 2 && "websocket"@.len() == 9);
    assert(text::lowered("reality"@) =~= "reality"@);
    assert(text::lowered("tls"@) =~= "tls"@);
    assert(text::lowered("none"@) =~= "none"@);
}

/// The node of a server of a Shadowsocks list, key by key.
pub proof fn law_sip008_reads_back(s: JsonView)
    requires
        sip008_node(s) is Some,
        0 < json::int_at(s, "server_port"@) < 0x1_0000,
    ensures
        ({
            let n = sip008_node(s)->0;
            &&& n.kind == "ss"@
            &&& Some(n.server) == json::text_at(s, "server"@)
            &&& n.port == json::int_at(s, "server_port"@)
            &&& n.password == json::text_at(s, "password"@)
            &&& n.cipher == json::text_at(s, "method"@)
            &&& n.plugin == json::text_at(s, "plugin"@)
            &&& n.plugin_opts == json::text_at(s, "plugin_opts"@)
            &&& (json::text_at(s, "remarks"@) is None ==> n.name == n.server)
            &&& (json::text_at(s, "remarks"@) is Some && json::text_at(s, "remarks"@)->0.len() > 0
                ==> Some(n.name) == json::text_at(s, "remarks"@))
            &&& !n.tls
        }),
{
}

/// The node of an outbound: its protocol under `protocol`, its account under `settings`,
/// its name under `tag`, and without `streamSettings` a plain TCP connection.
pub proof fn law_xray_reads_back(ob: JsonView, p: Seq<char>, settings: JsonView, a: AccountView)
    requires
        json::text_at(ob, "protocol"@) == Some(p),
        ob.entry("settings"@) == Some(settings),
        account_of(node::normal_type(p), settings) == Some(a),
        node::known_type(node::normal_type(p)),
        text::trimmed(a.server).len() > 0,
        a.port != 0,
        ob.entry("streamSettings"@) is None,
    ensures
        ({
            let r = xray_node(ob);
            &&& r is Some
            &&& r->0.kind == node::normal_type(p)
            &&& r->0.server == a.server
            &&& r->0.port == a.port
            &&& r->0.uuid == a.uuid
            &&& r->0.password == a.password
            &&& r->0.flow == a.flow
            &&& r->0.cipher == a.cipher
            &&& r->0.username == a.username
            &&& r->0.alter_id == a.alter_id
            &&& r->0.network == "tcp"@
            &&& !r->0.tls
            &&& (json::text_at(ob, "tag"@) is None ==> r->0.name == a.server)
            &&& (json::text_at(ob, "tag"@) is Some && text::trimmed(
                json::text_at(ob, "tag"@)->0,
            ).len() > 0 ==> r->0.name == json::text_at(ob, "tag"@)->0)
        }),
{
}

/// An outbound with stream settings has those of its stream.
pub proof fn law_xray_stream(ob: JsonView, stream: JsonView)
    requires
        ob.entry("streamSettings"@) == Some(stream),
        xray_node(ob) is Some,
    ensures
        exists|n: NodeView|
            xray_node(ob) == Some(#[trigger] with_stream(n, stream)) && n.network == "tcp"@
                && !n.tls,
{
    let p = json::text_at(ob, "protocol"@)->0;
    let protocol = node::normal_type(p);
    let a = account_of(protocol, ob.entry("settings"@)->0)->0;
    let n = NodeView {
        name: node_name(json::text_at(ob, "tag"@), a.server),
        kind: protocol,
        server: a.server,
        port: a.port,
        uuid: a.uuid,
        password: a.password,
        flow: a.flow,
        security: Some("none"@),
        cipher: a.cipher,
        username: a.username,
        alter_id: a.alter_id,
        ..node::blank_node()
    };
    assert(xray_node(ob) == Some(with_stream(n, stream)));
}

/// An outbound with a `protocol` is one of Xray, and else one with a `type` is one of
/// sing-box; their nodes come in the order of the list.
pub proof fn law_outbounds_in_order(v: Seq<JsonView>, ob: JsonView)
    ensures
        ob.entry("protocol"@) is Some ==> outbound_node(ob) == xray_node(ob),
        ob.entry("protocol"@) is None && ob.entry("type"@) is Some ==> outbound_node(ob)
            == singbox_node(ob),
        ob.entry("protocol"@) is None && ob.entry("type"@) is None ==> outbound_node(ob) is None,
        outbound_node(ob) is Some ==> mapped(v.push(ob), false) == mapped(v, false).push(
            outbound_node(ob)->0,
        ),
        outbound_node(ob) is None ==> mapped(v.push(ob), false) == mapped(v, false),
        sip008_node(ob) is Some ==> mapped(v.push(ob), true) == mapped(v, true).push(
            sip008_node(ob)->0,
        ),
        mapped(Seq::empty(), false) == Seq::<NodeView>::empty(),
{
    assert(v.push(ob).drop_last() =~= v);
}

/// When an outbound of sing-box is a node: its type is known, it names a server, and its
/// port is none but zero.
pub proof fn law_singbox_is_taken(ob: JsonView)
    ensures
        singbox_node(ob) is Some <==> {
            &&& json::text_at(ob, "type"@) is Some
            &&& json::text_at(ob, "server"@) is Some
            &&& node::known_type(node::normal_type(json::text_at(ob, "type"@)->0))
            &&& text::trimmed(json::text_at(ob, "server"@)->0).len() > 0
            &&& json::int_at(ob, "server_port"@) as u16 != 0
        },
{
}

/// When a server of a SIP008 document is a node: it has a name, a password and a port.
pub proof fn law_sip008_is_taken(s: JsonView)
    ensures
        sip008_node(s) is Some <==> {
            &&& json::text_at(s, "server"@) is Some
            &&& json::text_at(s, "server"@)->0.len() > 0
            &&& json::text_at(s, "password"@) is Some
            &&& json::int_at(s, "server_port"@) as u16 != 0
        },
{
}

/// When an outbound of Xray is a node.
pub proof fn law_xray_is_taken(ob: JsonView)
    ensures
        xray_node(ob) is Some ==> json::text_at(ob, "protocol"@) is Some && ob.entry("settings"@)
            is Some && node::known_type(node::normal_type(json::text_at(ob, "protocol"@)->0)),
{
}

} // verus!
