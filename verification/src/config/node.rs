//! Proxy nodes and the filter that keeps the usable ones.

use vstd::prelude::*;

use crate::proxynet::ss;
use crate::text;

verus! {

/// A proxy server with what is needed to reach it.
#[derive(Debug, Clone)]
pub struct ProxyNode {
    pub name: String,
    pub kind: String,
    pub server: String,
    pub port: u16,
    pub uuid: Option<String>,
    pub password: Option<String>,
    pub tls: bool,
    pub server_name: Option<String>,
    pub flow: Option<String>,
    pub network: String,
    pub client_fingerprint: Option<String>,
    pub reality_public_key: Option<String>,
    pub reality_short_id: Option<String>,
    pub skip_cert_verify: bool,
    pub ws_path: Option<String>,
    pub ws_host: Option<String>,
    pub security: Option<String>,
    pub cipher: Option<String>,
    pub username: Option<String>,
    pub plugin: Option<String>,
    pub plugin_opts: Option<String>,
    pub alter_id: u16,
}

/// A node with its strings as sequences of characters.
#[verifier::ext_equal]
pub struct NodeView {
    pub name: Seq<char>,
    pub kind: Seq<char>,
    pub server: Seq<char>,
    pub port: u16,
    pub uuid: Option<Seq<char>>,
    pub password: Option<Seq<char>>,
    pub tls: bool,
    pub server_name: Option<Seq<char>>,
    pub flow: Option<Seq<char>>,
    pub network: Seq<char>,
    pub client_fingerprint: Option<Seq<char>>,
    pub reality_public_key: Option<Seq<char>>,
    pub reality_short_id: Option<Seq<char>>,
    pub skip_cert_verify: bool,
    pub ws_path: Option<Seq<char>>,
    pub ws_host: Option<Seq<char>>,
    pub security: Option<Seq<char>>,
    pub cipher: Option<Seq<char>>,
    pub username: Option<Seq<char>>,
    pub plugin: Option<Seq<char>>,
    pub plugin_opts: Option<Seq<char>>,
    pub alter_id: u16,
}

impl View for ProxyNode {
    type V = NodeView;

    open spec fn view(&self) -> NodeView {
        NodeView {
            name: self.name@,
            kind: self.kind@,
            server: self.server@,
            port: self.port,
            uuid: text::opt_view(self.uuid),
            password: text::opt_view(self.password),
            tls: self.tls,
            server_name: text::opt_view(self.server_name),
            flow: text::opt_view(self.flow),
            network: self.network@,
            client_fingerprint: text::opt_view(self.client_fingerprint),
            reality_public_key: text::opt_view(self.reality_public_key),
            reality_short_id: text::opt_view(self.reality_short_id),
            skip_cert_verify: self.skip_cert_verify,
            ws_path: text::opt_view(self.ws_path),
            ws_host: text::opt_view(self.ws_host),
            security: text::opt_view(self.security),
            cipher: text::opt_view(self.cipher),
            username: text::opt_view(self.username),
            plugin: text::opt_view(self.plugin),
            plugin_opts: text::opt_view(self.plugin_opts),
            alter_id: self.alter_id,
        }
    }
}

/// The node with nothing set; it speaks plain TCP.
pub open spec fn blank_node() -> NodeView {
    NodeView {
        name: Seq::empty(),
        kind: Seq::empty(),
        server: Seq::empty(),
        port: 0,
        uuid: None,
        password: None,
        tls: false,
        server_name: None,
        flow: None,
        network: "tcp"@,
        client_fingerprint: None,
        reality_public_key: None,
        reality_short_id: None,
        skip_cert_verify: false,
        ws_path: None,
        ws_host: None,
        security: None,
        cipher: None,
        username: None,
        plugin: None,
        plugin_opts: None,
        alter_id: 0,
    }
}

impl Default for ProxyNode {
    fn default() -> (r: Self)
        ensures
            r@ == blank_node(),
    {
        ProxyNode {
            name: String::new(),
            kind: String::new(),
            server: String::new(),
            port: 0,
            uuid: None,
            password: None,
            tls: false,
            server_name: None,
            flow: None,
            network: "tcp".to_owned(),
            client_fingerprint: None,
            reality_public_key: None,
            reality_short_id: None,
            skip_cert_verify: false,
            ws_path: None,
            ws_host: None,
            security: None,
            cipher: None,
            username: None,
            plugin: None,
            plugin_opts: None,
            alter_id: 0,
        }
    }
}

/// The views of a sequence of nodes.
pub open spec fn node_views(v: Seq<ProxyNode>) -> Seq<NodeView> {
    Seq::new(v.len(), |i: int| v[i]@)
}

pub open spec fn opt_node(o: Option<ProxyNode>) -> Option<NodeView> {
    match o {
        Some(n) => Some(n@),
        None => None,
    }
}

/// An optional text, with nothing as the empty text.
pub open spec fn or_empty(o: Option<Seq<char>>) -> Seq<char> {
    match o {
        Some(s) => s,
        None => Seq::empty(),
    }
}

/// The characters of an optional string; none without one.
pub fn chars_or_empty(o: &Option<String>) -> (r: Vec<char>)
    ensures
        r@ == or_empty(text::opt_view(*o)),
{
    match o {
        Some(s) => text::chars_of(s.as_str()),
        None => {
            let r: Vec<char> = Vec::new();
            assert(r@ =~= Seq::<char>::empty());
            r
        },
    }
}

/// Whether a node only carries a notice of the subscription.
pub open spec fn is_notice(name: Seq<char>) -> bool {
    text::has(name, "剩余流量"@) || text::has(name, "距离下次重置"@) || text::has(
        name,
        "套餐到期"@,
    ) || text::has(name, "官网"@)
}

impl ProxyNode {
    pub fn is_subscription_info(&self) -> (r: bool)
        ensures
            r == is_notice(self@.name),
    {
        let n = text::chars_of(self.name.as_str());
        let n = n.as_slice();
        text::contains(n, "剩余流量") || text::contains(n, "距离下次重置") || text::contains(
            n,
            "套餐到期",
        ) || text::contains(n, "官网")
    }
}

/// The one name of a node type.
pub open spec fn normal_type(ty: Seq<char>) -> Seq<char> {
    let t = text::lowered(text::trimmed(ty));
    if t == "shadowsocks"@ || t == "ss"@ {
        "ss"@
    } else if t == "socks"@ || t == "socks5"@ {
        "socks5"@
    } else if t == "https"@ {
        "http"@
    } else {
        t
    }
}

pub fn normalize_type(ty: &[char]) -> (r: Vec<char>)
    ensures
        r@ == normal_type(ty@),
{
    let t = text::lower(text::trim(ty));
    if text::is(t.as_slice(), "shadowsocks") || text::is(t.as_slice(), "ss") {
        text::chars_of("ss")
    } else if text::is(t.as_slice(), "socks") || text::is(t.as_slice(), "socks5") {
        text::chars_of("socks5")
    } else if text::is(t.as_slice(), "https") {
        text::chars_of("http")
    } else {
        t
    }
}

/// The node types that have an outbound.
pub open spec fn known_type(ty: Seq<char>) -> bool {
    ty == "vless"@ || ty == "trojan"@ || ty == "ss"@ || ty == "vmess"@ || ty == "socks5"@ || ty
        == "http"@
}

pub fn is_known_type(ty: &[char]) -> (r: bool)
    ensures
        r == known_type(ty@),
{
    text::is(ty, "vless") || text::is(ty, "trojan") || text::is(ty, "ss") || text::is(ty, "vmess")
        || text::is(ty, "socks5") || text::is(ty, "http")
}

/// `websocket` is another name of `ws`.
pub open spec fn ws_name(network: Seq<char>) -> Seq<char> {
    if network == "websocket"@ {
        "ws"@
    } else {
        network
    }
}

pub fn to_ws_name(network: Vec<char>) -> (r: Vec<char>)
    ensures
        r@ == ws_name(network@),
{
    if text::is(network.as_slice(), "websocket") {
        text::chars_of("ws")
    } else {
        network
    }
}

/// The transports that a node may name.
pub open spec fn usable_network(network: Seq<char>) -> bool {
    let n = ws_name(text::lowered(text::trimmed(network)));
    n == "tcp"@ || n == "ws"@ || n == "httpupgrade"@ || n == "raw"@ || n == ""@
}

/// The security layer of a node: the one it names, else what its keys imply.
pub open spec fn security_of(n: NodeView) -> Seq<char> {
    if n.security is Some && n.security->0.len() > 0 {
        text::lowered(text::trimmed(n.security->0))
    } else if or_empty(n.reality_public_key).len() > 0 {
        "reality"@
    } else if n.tls {
        "tls"@
    } else {
        "none"@
    }
}

pub open spec fn usable_ss_plugin(n: NodeView) -> bool {
    let p = text::lowered(text::trimmed(or_empty(n.plugin)));
    p.len() == 0 || p == "none"@ || p == "obfs"@ || p == "obfs-local"@ || p == "simple-obfs"@ || p
        == "v2ray-plugin"@
}

pub open spec fn blank(o: Option<Seq<char>>) -> bool {
    text::trimmed(or_empty(o)).len() == 0
}

/// The nodes that can be dialled: a supported transport, and for the type of
/// the node the secrets and options that its protocol needs.
pub open spec fn accepted(n: NodeView) -> bool {
    let ty = normal_type(n.kind);
    usable_network(n.network) && if ty == "vless"@ {
        let security = security_of(n);
        let flow = text::trimmed(or_empty(n.flow));
        &&& security == "none"@ || security == "tls"@ || security == "reality"@
        &&& flow.len() == 0 || text::same_nocase(flow, "xtls-rprx-vision"@)
        &&& !blank(n.uuid)
    } else if ty == "trojan"@ {
        !blank(n.password)
    } else if ty == "ss"@ {
        let method = match n.cipher {
            Some(c) => c,
            None => "aes-256-gcm"@,
        };
        !blank(n.password) && ss::cipher_of(text::trimmed(method)) is Some && usable_ss_plugin(n)
    } else if ty == "vmess"@ {
        !blank(n.uuid)
    } else {
        ty == "socks5"@ || ty == "http"@
    }
}

fn is_blank(o: &Option<String>) -> (r: bool)
    ensures
        r == blank(text::opt_view(*o)),
{
    let c = chars_or_empty(o);
    text::trim(c.as_slice()).len() == 0
}

/// Decides which nodes of a subscription are kept.
pub struct NodeFilter;

impl NodeFilter {
    pub fn accept(node: &ProxyNode) -> (r: bool)
        ensures
            r == accepted(node@),
    {
        let tn = text::chars_of(node.kind.as_str());
        let ty = normalize_type(tn.as_slice());
        let ty = ty.as_slice();
        let nw = text::chars_of(node.network.as_str());
        let network = to_ws_name(text::lower(text::trim(nw.as_slice())));
        let network = network.as_slice();
        if !(text::is(network, "tcp") || text::is(network, "ws") || text::is(network, "httpupgrade")
            || text::is(network, "raw") || text::is(network, "")) {
            return false;
        }
        if text::is(ty, "vless") {
            let s = Self::resolve_security(node);
            let s = text::chars_of(s.as_str());
            let s = s.as_slice();
            if !(text::is(s, "none") || text::is(s, "tls") || text::is(s, "reality")) {
                return false;
            }
            let f = chars_or_empty(&node.flow);
            let flow = text::trim(f.as_slice());
            if flow.len() > 0 && !text::is_nocase(flow, "xtls-rprx-vision") {
                return false;
            }
            !is_blank(&node.uuid)
        } else if text::is(ty, "trojan") {
            !is_blank(&node.password)
        } else if text::is(ty, "ss") {
            if is_blank(&node.password) {
                return false;
            }
            let m = match &node.cipher {
                Some(c) => text::chars_of(c.as_str()),
                None => text::chars_of("aes-256-gcm"),
            };
            let method = text::string_of(text::trim(m.as_slice()));
            ss::supported_cipher(method.as_str()) && Self::ss_plugin_ok(node)
        } else if text::is(ty, "vmess") {
            !is_blank(&node.uuid)
        } else {
            text::is(ty, "socks5") || text::is(ty, "http")
        }
    }

    fn ss_plugin_ok(node: &ProxyNode) -> (r: bool)
        ensures
            r == usable_ss_plugin(node@),
    {
        let c = chars_or_empty(&node.plugin);
        let p = text::lower(text::trim(c.as_slice()));
        let p = p.as_slice();
        p.len() == 0 || text::is(p, "none") || text::is(p, "obfs") || text::is(p, "obfs-local")
            || text::is(p, "simple-obfs") || text::is(p, "v2ray-plugin")
    }

    pub fn resolve_security(node: &ProxyNode) -> (r: String)
        ensures
            r@ == security_of(node@),
    {
        if let Some(s) = &node.security {
            let c = text::chars_of(s.as_str());
            if c.len() > 0 {
                let l = text::lower(text::trim(c.as_slice()));
                return text::string_of(l.as_slice());
            }
        }
        let key = chars_or_empty(&node.reality_public_key);
        if key.len() > 0 {
            "reality".to_owned()
        } else if node.tls {
            "tls".to_owned()
        } else {
            "none".to_owned()
        }
    }
}

/// The value that plugin options, separated by `;` or `&`, give to a key. The
/// first one counts, and the case of the key does not.
pub open spec fn plugin_option(parts: Seq<Seq<char>>, key: Seq<char>, i: int) -> Option<Seq<char>>
    decreases parts.len() - i,
{
    if i >= parts.len() {
        None
    } else {
        match text::cut(parts[i], '=') {
            Some((k, v)) => if text::same_nocase(k, key) {
                Some(v)
            } else {
                plugin_option(parts, key, i + 1)
            },
            None => plugin_option(parts, key, i + 1),
        }
    }
}

pub open spec fn option_in(opts: Option<Seq<char>>, key: Seq<char>) -> Option<Seq<char>> {
    match opts {
        Some(o) => plugin_option(text::pieces(o, ";&"@), key, 0),
        None => None,
    }
}

pub fn opt_from_plugin(opts: &Option<String>, key: &str) -> (r: Option<String>)
    ensures
        text::opt_view(r) == option_in(text::opt_view(*opts), key@),
{
    match opts {
        None => None,
        Some(o) => {
            let c = text::chars_of(o.as_str());
            let parts = text::split(c.as_slice(), ";&");
            let ghost ps = text::texts(parts@);
            let mut i: usize = 0;
            while i < parts.len()
                invariant
                    i <= parts@.len(),
                    text::opt_view(*opts) == Some(o@),
                    ps == text::texts(parts@),
                    ps == text::pieces(o@, ";&"@),
                    plugin_option(ps, key@, 0) == plugin_option(ps, key@, i as int),
                decreases parts@.len() - i,
            {
                assert(ps[i as int] == parts@[i as int]@);
                if let Some((k, v)) = text::split_once(parts[i], '=') {
                    if text::is_nocase(k, key) {
                        return Some(text::string_of(v));
                    }
                }
                i += 1;
            }
            None
        },
    }
}

/// The transport of a kept node: `ws`, `httpupgrade` or `tcp`.
pub open spec fn normal_network(n: NodeView) -> NodeView {
    let net = ws_name(text::lowered(text::trimmed(n.network)));
    NodeView {
        network: if net == "httpupgrade"@ || net == "ws"@ {
            net
        } else {
            "tcp"@
        },
        ..n
    }
}

/// A node with the WebSocket plugin becomes a node with a WebSocket transport.
pub open spec fn without_ws_plugin(n: NodeView) -> NodeView {
    if text::lowered(or_empty(n.plugin)) != "v2ray-plugin"@ {
        n
    } else {
        let tls = option_in(n.plugin_opts, "tls"@);
        let host = option_in(n.plugin_opts, "host"@);
        NodeView {
            network: "ws"@,
            tls: n.tls || tls == Some("true"@) || tls == Some("1"@),
            ws_path: if n.ws_path is None {
                option_in(n.plugin_opts, "path"@)
            } else {
                n.ws_path
            },
            ws_host: if n.ws_host is Some {
                n.ws_host
            } else if host is Some {
                host
            } else {
                option_in(n.plugin_opts, "obfs-host"@)
            },
            plugin: None,
            plugin_opts: None,
            ..n
        }
    }
}

pub fn normalize_network(node: ProxyNode) -> (r: ProxyNode)
    ensures
        r@ == normal_network(node@),
{
    let mut n = node;
    let c = text::chars_of(n.network.as_str());
    let net = to_ws_name(text::lower(text::trim(c.as_slice())));
    if text::is(net.as_slice(), "httpupgrade") || text::is(net.as_slice(), "ws") {
        n.network = text::string_of(net.as_slice());
    } else {
        n.network = "tcp".to_owned();
    }
    n
}

fn is_one(o: &Option<String>, a: &str, b: &str) -> (r: bool)
    ensures
        r == (text::opt_view(*o) == Some(a@) || text::opt_view(*o) == Some(b@)),
{
    match o {
        Some(s) => {
            let c = text::chars_of(s.as_str());
            text::is(c.as_slice(), a) || text::is(c.as_slice(), b)
        },
        None => false,
    }
}

pub fn normalize_ss_plugin(node: ProxyNode) -> (r: ProxyNode)
    ensures
        r@ == without_ws_plugin(node@),
{
    let mut n = node;
    let c = chars_or_empty(&n.plugin);
    let p = text::lower(c.as_slice());
    if !text::is(p.as_slice(), "v2ray-plugin") {
        return n;
    }
    n.network = "ws".to_owned();
    let tls = opt_from_plugin(&n.plugin_opts, "tls");
    if is_one(&tls, "true", "1") {
        n.tls = true;
    }
    if n.ws_path.is_none() {
        n.ws_path = opt_from_plugin(&n.plugin_opts, "path");
    }
    if n.ws_host.is_none() {
        let host = opt_from_plugin(&n.plugin_opts, "host");
        if host.is_some() {
            n.ws_host = host;
        } else {
            n.ws_host = opt_from_plugin(&n.plugin_opts, "obfs-host");
        }
    }
    n.plugin = None;
    n.plugin_opts = None;
    n
}

/// The accepted nodes in order, each in its normal form.
pub open spec fn kept(v: Seq<NodeView>) -> Seq<NodeView>
    decreases v.len(),
{
    if v.len() == 0 {
        Seq::empty()
    } else {
        let head = kept(v.drop_last());
        if accepted(v.last()) {
            head.push(without_ws_plugin(normal_network(v.last())))
        } else {
            head
        }
    }
}

pub fn filter_all(nodes: Vec<ProxyNode>) -> (r: Vec<ProxyNode>)
    ensures
        node_views(r@) == kept(node_views(nodes@)),
{
    let ghost all = node_views(nodes@);
    let mut r: Vec<ProxyNode> = Vec::new();
    proof {
        assert(node_views(r@) =~= kept(all.take(0)));
    }
    for n in it: nodes
        invariant
            all == node_views(it.seq()),
            node_views(r@) == kept(all.take(it.index())),
    {
        let ghost before = node_views(r@);
        let ghost done = it.index();
        proof {
            assert(all.take(done + 1).drop_last() =~= all.take(done));
            assert(all.take(done + 1).last() == n@);
        }
        if NodeFilter::accept(&n) {
            let m = normalize_ss_plugin(normalize_network(n));
            r.push(m);
            proof {
                assert(node_views(r@) =~= before.push(m@));
            }
        }
    }
    proof {
        assert(all.take(all.len() as int) =~= all);
    }
    r
}

/// Whether every node is of a type that has an outbound.
pub open spec fn all_known(v: Seq<NodeView>) -> bool {
    forall|j: int| 0 <= j < v.len() ==> known_type((#[trigger] v[j]).kind)
}

/// The transports of kept nodes are usable ones.
proof fn lemma_networks_usable()
    ensures
        usable_network("tcp"@),
        usable_network("ws"@),
        usable_network("httpupgrade"@),
{
    reveal_strlit("tcp");
    reveal_strlit("ws");
    reveal_strlit("httpupgrade");
    reveal_strlit("websocket");
    assert(text::trimmed("tcp"@) == "tcp"@);
    assert(text::trimmed("ws"@) == "ws"@);
    assert(text::trimmed("httpupgrade"@) == "httpupgrade"@);
    assert(text::lowered("tcp"@) =~= "tcp"@);
    assert(text::lowered("ws"@) =~= "ws"@);
    assert(text::lowered("httpupgrade"@) =~= "httpupgrade"@);
    assert("websocket"@.len() == 9 && "httpupgrade"@.len() == 11);
}

/// A node in normal form is accepted as it was before.
pub proof fn law_normal_nodes_are_accepted(n: NodeView)
    requires
        accepted(n),
    ensures
        accepted(without_ws_plugin(normal_network(n))),
{
    lemma_networks_usable();
    let m = without_ws_plugin(normal_network(n));
    if m.plugin is None {
        assert(text::trimmed(or_empty(m.plugin)) =~= Seq::empty());
        assert(text::lowered(Seq::<char>::empty()) =~= Seq::empty());
    }
}

/// Every kept node is one that was accepted, is accepted still, keeps its type, and
/// names one of three transports.
pub proof fn law_kept_nodes(v: Seq<NodeView>, i: int)
    requires
        0 <= i < kept(v).len(),
    ensures
        exists|j: int|
            0 <= j < v.len() && accepted(#[trigger] v[j]) && kept(v)[i] == without_ws_plugin(
                normal_network(v[j]),
            ),
        ({
            let net = kept(v)[i].network;
            net == "tcp"@ || net == "ws"@ || net == "httpupgrade"@
        }),
        accepted(kept(v)[i]),
        all_known(v) ==> known_type(kept(v)[i].kind),
    decreases v.len(),
{
    let head = kept(v.drop_last());
    if i < head.len() {
        assert(all_known(v) ==> all_known(v.drop_last())) by {
            assert forall|k: int| all_known(v) && 0 <= k < v.drop_last().len() implies known_type(
                (#[trigger] v.drop_last()[k]).kind,
            ) by {
                assert(v.drop_last()[k] == v[k]);
            }
        }
        law_kept_nodes(v.drop_last(), i);
        let j = choose|j: int|
            0 <= j < v.drop_last().len() && accepted(#[trigger] v.drop_last()[j]) && head[i]
                == without_ws_plugin(normal_network(v.drop_last()[j]));
        assert(v[j] == v.drop_last()[j]);
    } else {
        assert(accepted(v[v.len() - 1]));
        law_normal_nodes_are_accepted(v[v.len() - 1]);
    }
}

// ---- laws ----
/// The types by their names, in any letter case: shadowsocks is ss, socks is socks5 and
/// https is http.
pub proof fn law_type_names(ty: Seq<char>)
    ensures
        ({
            let t = text::lowered(text::trimmed(ty));
            &&& (t == "shadowsocks"@ || t == "ss"@ ==> normal_type(ty) == "ss"@)
            &&& (t == "socks"@ || t == "socks5"@ ==> normal_type(ty) == "socks5"@)
            &&& (t == "https"@ || t == "http"@ ==> normal_type(ty) == "http"@)
            &&& (t == "vless"@ || t == "vmess"@ || t == "trojan"@ ==> normal_type(ty) == t)
        }),
{
    reveal_strlit("shadowsocks");
    reveal_strlit("ss");
    reveal_strlit("socks");
    reveal_strlit("socks5");
    reveal_strlit("https");
    reveal_strlit("http");
    reveal_strlit("vless");
    reveal_strlit("vmess");
    reveal_strlit("trojan");
    assert("shadowsocks"@.len() == 11 && "ss"@.len() == 2 && "socks"@.len() == 5);
    assert("socks5"@.len() == 6 && "https"@.len() == 5 && "http"@.len() == 4);
    assert("vless"@[0] == 'v' && "vmess"@[0] == 'v' && "socks"@[0] == 's' && "https"@[0] == 'h');
    assert("trojan"@[0] == 't' && "socks5"@[0] == 's');
    assert("vless"@.len() == 5 && "vmess"@.len() == 5 && "trojan"@.len() == 6);
}

/// A node is refused that lacks its secret: an id for VLESS and VMess, a password for
/// Trojan and Shadowsocks.
pub proof fn law_secrets_are_needed(n: NodeView)
    requires
        accepted(n),
    ensures
        normal_type(n.kind) == "vless"@ || normal_type(n.kind) == "vmess"@ ==> n.uuid is Some
            && n.uuid->0.len() > 0,
        normal_type(n.kind) == "trojan"@ || normal_type(n.kind) == "ss"@ ==> n.password is Some
            && n.password->0.len() > 0,
{
    lemma_kinds_differ();
    if n.uuid is None || n.uuid->0.len() == 0 {
        assert(or_empty(n.uuid) =~= Seq::<char>::empty());
        assert(text::trimmed(Seq::<char>::empty()).len() == 0);
    }
    if n.password is None || n.password->0.len() == 0 {
        assert(or_empty(n.password) =~= Seq::<char>::empty());
        assert(text::trimmed(Seq::<char>::empty()).len() == 0);
    }
}

proof fn lemma_kinds_differ()
    ensures
        "vless"@ != "vmess"@ && "vless"@ != "trojan"@ && "vless"@ != "ss"@,
        "vmess"@ != "trojan"@ && "vmess"@ != "ss"@ && "trojan"@ != "ss"@,
        "vmess"@ != "socks5"@ && "vmess"@ != "http"@,
{
    reveal_strlit("vless");
    reveal_strlit("vmess");
    reveal_strlit("trojan");
    reveal_strlit("ss");
    reveal_strlit("socks5");
    reveal_strlit("http");
    assert("vless"@[1] == 'l' && "vmess"@[1] == 'm');
    assert("trojan"@.len() == 6 && "ss"@.len() == 2 && "vless"@.len() == 5 && "vmess"@.len() == 5);
    assert("socks5"@.len() == 6 && "http"@.len() == 4);
}

/// The plugin for WebSockets becomes the transport: its `path` and `host` are those of the
/// transport, unless the node names its own.
pub proof fn law_ws_plugin_becomes_transport(n: NodeView)
    requires
        text::lowered(or_empty(n.plugin)) == "v2ray-plugin"@,
    ensures
        ({
            let m = without_ws_plugin(n);
            &&& m.network == "ws"@
            &&& m.plugin is None
            &&& (n.ws_path is None ==> m.ws_path == option_in(n.plugin_opts, "path"@))
            &&& (n.ws_path is Some ==> m.ws_path == n.ws_path)
            &&& (option_in(n.plugin_opts, "tls"@) == Some("true"@) ==> m.tls)
            &&& (n.tls ==> m.tls)
            &&& m.server == n.server && m.port == n.port && m.password == n.password && m.cipher
                == n.cipher && m.kind == n.kind && m.name == n.name
        }),
{
}

/// Which nodes are accepted: by type, with the secret that the type needs and with the
/// security, flow, cipher and plugin that are known; no other type is.
pub proof fn law_accepted_nodes(n: NodeView)
    requires
        usable_network(n.network),
    ensures
        n.kind == "socks5"@ || n.kind == "http"@ ==> accepted(n),
        n.kind == "trojan"@ ==> (accepted(n) <==> !blank(n.password)),
        n.kind == "vmess"@ ==> (accepted(n) <==> !blank(n.uuid)),
        n.kind == "vless"@ && n.flow is None && n.security is None ==> (accepted(n) <==> !blank(
            n.uuid,
        )),
        n.kind == "vless"@ && security_of(n) != "none"@ && security_of(n) != "tls"@ && security_of(n)
            != "reality"@ ==> !accepted(n),
        n.kind == "ss"@ && n.plugin is None && n.cipher is None ==> (accepted(n) <==> !blank(
            n.password,
        )),
        n.kind == "ss"@ && n.cipher is Some && ss::cipher_of(text::trimmed(n.cipher->0)) is None
            ==> !accepted(n),
        n.kind == "wireguard"@ ==> !accepted(n),
{
    lemma_kinds_differ();
    lemma_plain_kinds();
    let e = Seq::<char>::empty();
    text::law_trim(e, e, e);
    assert(e + e + e =~= e);
}

/// A security that a node names counts, and else a key for REALITY, and else TLS.
pub proof fn law_security_of_node(n: NodeView)
    ensures
        n.security == Some("tls"@) ==> security_of(n) == "tls"@,
        n.security is None && n.reality_public_key is Some && n.reality_public_key->0.len() > 0
            ==> security_of(n) == "reality"@,
        n.security is None && n.reality_public_key is None && n.tls ==> security_of(n) == "tls"@,
        n.security is None && n.reality_public_key is None && !n.tls ==> security_of(n) == "none"@,
{
    reveal_strlit("tls");
    let e = Seq::<char>::empty();
    text::law_trim(e, "tls"@, e);
    assert(text::lowered("tls"@) =~= "tls"@);
}

proof fn lemma_plain_kinds()
    ensures
        normal_type("vless"@) == "vless"@,
        normal_type("trojan"@) == "trojan"@,
        normal_type("vmess"@) == "vmess"@,
        normal_type("ss"@) == "ss"@,
        normal_type("socks5"@) == "socks5"@,
        normal_type("http"@) == "http"@,
        normal_type("wireguard"@) == "wireguard"@,
        "wireguard"@.len() == 9,
        "socks5"@.len() == 6,
        "socks5"@ != "trojan"@,
        "http"@.len() == 4,
        "trojan"@.len() == 6,
        "vless"@.len() == 5,
        "vmess"@.len() == 5,
        "ss"@.len() == 2,
        ss::cipher_of(text::trimmed("aes-256-gcm"@)) is Some,
{
    reveal_strlit("vless");
    reveal_strlit("trojan");
    reveal_strlit("vmess");
    reveal_strlit("ss");
    reveal_strlit("socks");
    reveal_strlit("socks5");
    reveal_strlit("http");
    reveal_strlit("https");
    reveal_strlit("shadowsocks");
    reveal_strlit("wireguard");
    reveal_strlit("aes-256-gcm");
    reveal_strlit("aes-128-gcm");
    let e = Seq::<char>::empty();
    text::law_trim(e, "vless"@, e);
    text::law_trim(e, "trojan"@, e);
    text::law_trim(e, "vmess"@, e);
    text::law_trim(e, "ss"@, e);
    text::law_trim(e, "socks5"@, e);
    text::law_trim(e, "http"@, e);
    text::law_trim(e, "wireguard"@, e);
    text::law_trim(e, "aes-256-gcm"@, e);
    assert(text::lowered("vless"@) =~= "vless"@);
    assert(text::lowered("trojan"@) =~= "trojan"@);
    assert(text::lowered("vmess"@) =~= "vmess"@);
    assert(text::lowered("ss"@) =~= "ss"@);
    assert(text::lowered("socks5"@) =~= "socks5"@);
    assert(text::lowered("http"@) =~= "http"@);
    assert(text::lowered("wireguard"@) =~= "wireguard"@);
    assert(text::lowered("aes-256-gcm"@) =~= "aes-256-gcm"@);
    assert("vless"@[0] == 'v' && "vmess"@[0] == 'v' && "socks"@[0] == 's' && "https"@[0] == 'h');
    assert("socks5"@[0] == 's' && "trojan"@[0] == 't');
    assert("aes-256-gcm"@[4] == '2' && "aes-128-gcm"@[4] == '1');
}

/// A WebSocket is named in two ways; every other network has the name it has.
pub proof fn law_names_of_websocket(network: Seq<char>)
    ensures
        ws_name("websocket"@) == "ws"@,
        ws_name("ws"@) == "ws"@,
        network != "websocket"@ ==> ws_name(network) == network,
{
}

/// The networks that a node may have.
pub proof fn law_networks()
    ensures
        usable_network("tcp"@) && usable_network("raw"@) && usable_network("ws"@),
        usable_network("websocket"@) && usable_network("httpupgrade"@) && usable_network(""@),
        !usable_network("grpc"@) && !usable_network("quic"@),
{
    reveal_strlit("tcp");
    reveal_strlit("raw");
    reveal_strlit("ws");
    reveal_strlit("websocket");
    reveal_strlit("httpupgrade");
    reveal_strlit("");
    reveal_strlit("grpc");
    reveal_strlit("quic");
    let e = Seq::<char>::empty();
    text::law_trim(e, "tcp"@, e);
    text::law_trim(e, "raw"@, e);
    text::law_trim(e, "ws"@, e);
    text::law_trim(e, "websocket"@, e);
    text::law_trim(e, "httpupgrade"@, e);
    text::law_trim(e, ""@, e);
    text::law_trim(e, "grpc"@, e);
    text::law_trim(e, "quic"@, e);
    assert(text::lowered("tcp"@) =~= "tcp"@);
    assert(text::lowered("raw"@) =~= "raw"@);
    assert(text::lowered("ws"@) =~= "ws"@);
    assert(text::lowered("websocket"@) =~= "websocket"@);
    assert(text::lowered("httpupgrade"@) =~= "httpupgrade"@);
    assert(text::lowered(""@) =~= ""@);
    assert(text::lowered("grpc"@) =~= "grpc"@);
    assert(text::lowered("quic"@) =~= "quic"@);
    assert("grpc"@.len() == 4 && "quic"@.len() == 4 && "websocket"@.len() == 9);
    assert("tcp"@.len() == 3 && "raw"@.len() == 3 && "ws"@.len() == 2 && ""@.len() == 0);
    assert("httpupgrade"@.len() == 11);
}

} // verus!
