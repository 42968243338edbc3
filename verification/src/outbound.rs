//! Dialling through a node and checking its health.

use vstd::prelude::*;

use crate::codec;
use crate::config::catalog;
use crate::config::link;
use crate::config::link::LinkView;
use crate::config::node;
use crate::config::node::{NodeView, ProxyNode};
use crate::config::share_link;
use crate::ip;
use crate::ip::{Ip, IpView};
use crate::proxynet::address;
use crate::proxynet::crypto;
use crate::proxynet::dial;
use crate::proxynet::dial::Session;
use crate::proxynet::error::ProxyError;
use crate::proxynet::options;
use crate::proxynet::options::{
    EdgeOptions, HttpProxyOptions, OutboundKind, SocksOptions, SsOptions, TrojanOptions,
    VlessOptions, VlessSecurity, VmessOptions,
};
use crate::proxynet::ss;
use crate::proxynet::transport;
use crate::proxynet::transport::TransportKind;
use crate::proxynet::vmess;
use crate::relay;
use crate::rules;
use crate::text;

verus! {

/// The position of the last colon, zero without one.
pub open spec fn last_colon(s: Seq<char>) -> int {
    match text::last_at(s, ':', s.len() as int) {
        Some(i) => i,
        None => 0,
    }
}

/// Host and port text of a destination.
pub open spec fn destination_parts(s: Seq<char>) -> (Seq<char>, Seq<char>) {
    match rules::host_port(s) {
        Some((h, p)) => (text::without_any(h, "[]"@), p),
        None => (
            text::without_any(text::without_any(s.take(last_colon(s)), "[]"@), "[]"@),
            s.skip(last_colon(s) + 1),
        ),
    }
}

/// Host and port of a destination; nothing where the port is no number. A
/// destination has a colon, or at least begins with an ASCII character.
pub fn destination(host_port: &str) -> (r: Option<(String, u16)>)
    requires
        host_port@.contains(':') || (host_port@.len() > 0 && host_port@[0] <= '\u{7f}'),
    ensures
        ({
            let (h, p) = destination_parts(host_port@);
            match r {
                Some((a, n)) => a@ == h && text::unsigned_value(p, 0xffff) == Some(n as int),
                None => text::unsigned_value(p, 0xffff) is None,
            }
        }),
{
    let c = text::chars_of(host_port);
    let n: usize = c.len();
    match rules::try_split_host_port(host_port) {
        Some((h, p)) => {
            let h = text::chars_of(h.as_str());
            let p = text::chars_of(p.as_str());
            let host = text::trim_any(h.as_slice(), "[]");
            match text::parse_u16(p.as_slice()) {
                Some(port) => Some((text::string_of(host), port)),
                None => None,
            }
        },
        None => {
            let i: usize = match text::rfind(c.as_slice(), ':') {
                Some(i) => i,
                None => 0,
            };
            proof {
                if c@.contains(':') {
                    let k = choose|k: int| 0 <= k < c@.len() && c@[k] == ':';
                    assert(c@.len() > 0);
                }
            }
            let head = &c.as_slice()[0..i];
            let port = &c.as_slice()[i + 1..n];
            assert(head@ =~= host_port@.take(i as int));
            assert(port@ =~= host_port@.skip(i + 1));
            let host = text::trim_any(text::trim_any(head, "[]"), "[]");
            match text::parse_u16(port) {
                Some(p) => Some((text::string_of(host), p)),
                None => None,
            }
        },
    }
}

/// A node that was chosen, if any.
#[derive(Debug)]
pub struct OutboundDialer {
    pub node: Option<ProxyNode>,
}

impl OutboundDialer {
    pub fn new() -> (r: Self)
        ensures
            r.node is None,
    {
        OutboundDialer { node: None }
    }

    pub fn current<'a>(&'a self) -> (r: Option<&'a ProxyNode>)
        ensures
            match r {
                Some(n) => self.node == Some(*n),
                None => self.node is None,
            },
    {
        match &self.node {
            Some(n) => Some(n),
            None => None,
        }
    }

    pub fn set_current(&mut self, node: Option<ProxyNode>)
        ensures
            final(self).node == node,
    {
        self.node = node;
    }
}

/// A host without white space around it and dots behind it.
pub open spec fn lookup_host(s: Seq<char>) -> Seq<char> {
    text::without_char_end(text::trimmed(s), '.')
}

/// What a host asks of the resolver.
#[derive(Debug)]
pub enum HostQuery {
    Address(Ip),
    Name(String),
}

/// A host that is an address needs no resolver.
pub fn host_query(host: &str) -> (r: HostQuery)
    ensures
        match r {
            HostQuery::Address(i) => ip::ip_of(lookup_host(host@)) == Some(i@),
            HostQuery::Name(n) => ip::ip_of(lookup_host(host@)) is None && n@ == lookup_host(
                host@,
            ),
        },
{
    let c = text::chars_of(host);
    let t = text::trim(c.as_slice());
    let mut n: usize = t.len();
    assert(t@.take(n as int) =~= t@);
    while n > 0 && t[n - 1] == '.'
        invariant
            n <= t@.len(),
            text::without_char_end(t@, '.') == text::without_char_end(t@.take(n as int), '.'),
        decreases n,
    {
        assert(t@.take(n as int).drop_last() =~= t@.take(n - 1));
        n -= 1;
    }
    let h = &t[0..n];
    match ip::parse_ip(h) {
        Some(i) => HostQuery::Address(i),
        None => HostQuery::Name(text::string_of(h)),
    }
}

/// The first IPv4 address, from position `i` on.
pub open spec fn first_four(v: Seq<IpView>, i: int) -> Option<Seq<u8>>
    decreases v.len() - i,
{
    if i >= v.len() {
        None
    } else {
        match v[i] {
            IpView::V4(o) => Some(o),
            IpView::V6(_) => first_four(v, i + 1),
        }
    }
}

pub fn first_ipv4(v: &[Ip]) -> (r: Option<[u8; 4]>)
    ensures
        (match r {
            Some(o) => Some(o@),
            None => None,
        }) == first_four(relay::ip_views(v@), 0),
{
    let ghost vs = relay::ip_views(v@);
    let mut i: usize = 0;
    while i < v.len()
        invariant
            i <= v@.len(),
            vs == relay::ip_views(v@),
            first_four(vs, 0) == first_four(vs, i as int),
        decreases v@.len() - i,
    {
        assert(vs[i as int] == v@[i as int]@);
        match v[i] {
            Ip::V4(o) => {
                return Some(o);
            },
            Ip::V6(_) => {},
        }
        i += 1;
    }
    None
}

// ---- options of a node ----
/// The transport of a node; plain TCP where it names none.
pub open spec fn node_transport(n: NodeView) -> Seq<char> {
    if n.network.len() == 0 {
        "tcp"@
    } else {
        n.network
    }
}

fn copy_opt(o: &Option<String>) -> (r: Option<String>)
    ensures
        text::opt_view(r) == text::opt_view(*o),
{
    match o {
        Some(s) => Some(s.clone()),
        None => None,
    }
}

fn or_default(o: &Option<String>) -> (r: String)
    ensures
        r@ == node::or_empty(text::opt_view(*o)),
{
    match o {
        Some(s) => s.clone(),
        None => String::new(),
    }
}

fn transport_of(n: &ProxyNode) -> (r: String)
    ensures
        r@ == node_transport(n@),
{
    if n.network.as_str().is_empty() {
        "tcp".to_owned()
    } else {
        n.network.clone()
    }
}

/// The security layer that VLESS uses for a node: REALITY with a public key,
/// else TLS where the node asks for it.
pub open spec fn vless_security(n: NodeView) -> VlessSecurity {
    if node::or_empty(n.reality_public_key).len() > 0 {
        VlessSecurity::Reality
    } else if n.tls {
        VlessSecurity::Tls
    } else {
        VlessSecurity::Plain
    }
}

/// Whether options are those of a VLESS node that is dialled at a host.
pub open spec fn is_vless(n: NodeView, host: Seq<char>, o: VlessOptions) -> bool {
    &&& o.id@ == node::or_empty(n.uuid)
    &&& o.host@ == host
    &&& o.port == n.port
    &&& o.security == vless_security(n)
    &&& o.transport@ == node_transport(n)
    &&& text::opt_view(o.path) == n.ws_path
    &&& text::opt_view(o.host_header) == n.ws_host
    &&& text::opt_view(o.sni) == n.server_name
    &&& o.alpn@.len() == 0
    &&& text::opt_view(o.flow) == n.flow
    &&& text::opt_view(o.fingerprint) == n.client_fingerprint
    &&& text::opt_view(o.reality_public_key) == n.reality_public_key
    &&& text::opt_view(o.reality_short_id) == n.reality_short_id
    &&& o.allow_insecure == n.skip_cert_verify
}

pub fn to_vless(node: &ProxyNode, dial_host: &str) -> (r: VlessOptions)
    ensures
        is_vless(node@, dial_host@, r),
{
    let key = node::chars_or_empty(&node.reality_public_key);
    VlessOptions {
        id: or_default(&node.uuid),
        host: dial_host.to_owned(),
        port: node.port,
        security: if key.len() > 0 {
            VlessSecurity::Reality
        } else if node.tls {
            VlessSecurity::Tls
        } else {
            VlessSecurity::Plain
        },
        transport: transport_of(node),
        path: copy_opt(&node.ws_path),
        host_header: copy_opt(&node.ws_host),
        sni: copy_opt(&node.server_name),
        alpn: Vec::new(),
        flow: copy_opt(&node.flow),
        fingerprint: copy_opt(&node.client_fingerprint),
        reality_public_key: copy_opt(&node.reality_public_key),
        reality_short_id: copy_opt(&node.reality_short_id),
        allow_insecure: node.skip_cert_verify,
    }
}

/// Whether options are those of a Trojan node that is dialled at a host.
pub open spec fn is_trojan(n: NodeView, host: Seq<char>, o: TrojanOptions) -> bool {
    &&& o.password@ == node::or_empty(n.password)
    &&& o.host@ == host
    &&& o.port == n.port
    &&& o.transport@ == node_transport(n)
    &&& text::opt_view(o.path) == n.ws_path
    &&& text::opt_view(o.host_header) == n.ws_host
    &&& text::opt_view(o.sni) == n.server_name
    &&& o.alpn@.len() == 0
    &&& o.allow_insecure == n.skip_cert_verify
}

pub fn to_trojan(node: &ProxyNode, dial_host: &str) -> (r: TrojanOptions)
    ensures
        is_trojan(node@, dial_host@, r),
{
    TrojanOptions {
        password: or_default(&node.password),
        host: dial_host.to_owned(),
        port: node.port,
        transport: transport_of(node),
        path: copy_opt(&node.ws_path),
        host_header: copy_opt(&node.ws_host),
        sni: copy_opt(&node.server_name),
        alpn: Vec::new(),
        allow_insecure: node.skip_cert_verify,
    }
}

/// The method of a Shadowsocks node.
pub open spec fn node_method(n: NodeView) -> Seq<char> {
    match n.cipher {
        Some(c) => c,
        None => "aes-256-gcm"@,
    }
}

/// Whether options are those of a Shadowsocks node that is dialled at a host.
pub open spec fn is_ss(n: NodeView, host: Seq<char>, o: SsOptions) -> bool {
    &&& o.method@ == node_method(n)
    &&& o.password@ == node::or_empty(n.password)
    &&& o.host@ == host
    &&& o.port == n.port
    &&& text::opt_view(o.plugin) == n.plugin
    &&& text::opt_view(o.plugin_opts) == n.plugin_opts
    &&& o.transport@ == node_transport(n)
    &&& text::opt_view(o.path) == n.ws_path
    &&& text::opt_view(o.host_header) == n.ws_host
    &&& text::opt_view(o.sni) == n.server_name
    &&& o.alpn@.len() == 0
    &&& o.allow_insecure == n.skip_cert_verify
    &&& o.tls == n.tls
}

pub fn to_ss(node: &ProxyNode, dial_host: &str) -> (r: SsOptions)
    ensures
        is_ss(node@, dial_host@, r),
{
    SsOptions {
        method: match &node.cipher {
            Some(c) => c.clone(),
            None => "aes-256-gcm".to_owned(),
        },
        password: or_default(&node.password),
        host: dial_host.to_owned(),
        port: node.port,
        plugin: copy_opt(&node.plugin),
        plugin_opts: copy_opt(&node.plugin_opts),
        transport: transport_of(node),
        path: copy_opt(&node.ws_path),
        host_header: copy_opt(&node.ws_host),
        sni: copy_opt(&node.server_name),
        alpn: Vec::new(),
        allow_insecure: node.skip_cert_verify,
        tls: node.tls,
    }
}

/// Whether options are those of a VMess node that is dialled at a host.
pub open spec fn is_vmess(n: NodeView, host: Seq<char>, o: VmessOptions) -> bool {
    &&& o.id@ == node::or_empty(n.uuid)
    &&& o.security@ == node::or_empty(n.cipher)
    &&& o.alter_id == n.alter_id
    &&& o.host@ == host
    &&& o.port == n.port
    &&& o.transport@ == node_transport(n)
    &&& text::opt_view(o.path) == n.ws_path
    &&& text::opt_view(o.host_header) == n.ws_host
    &&& text::opt_view(o.sni) == n.server_name
    &&& o.alpn@.len() == 0
    &&& o.allow_insecure == n.skip_cert_verify
    &&& o.tls == n.tls
}

pub fn to_vmess(node: &ProxyNode, dial_host: &str) -> (r: VmessOptions)
    ensures
        is_vmess(node@, dial_host@, r),
{
    VmessOptions {
        id: or_default(&node.uuid),
        security: or_default(&node.cipher),
        alter_id: node.alter_id,
        host: dial_host.to_owned(),
        port: node.port,
        transport: transport_of(node),
        path: copy_opt(&node.ws_path),
        host_header: copy_opt(&node.ws_host),
        sni: copy_opt(&node.server_name),
        alpn: Vec::new(),
        allow_insecure: node.skip_cert_verify,
        tls: node.tls,
    }
}

pub fn to_socks(node: &ProxyNode) -> (r: SocksOptions)
    ensures
        text::opt_view(r.username) == node@.username,
        text::opt_view(r.password) == node@.password,
{
    SocksOptions { username: copy_opt(&node.username), password: copy_opt(&node.password) }
}

pub fn to_http(node: &ProxyNode) -> (r: HttpProxyOptions)
    ensures
        text::opt_view(r.username) == node@.username,
        text::opt_view(r.password) == node@.password,
{
    HttpProxyOptions { username: copy_opt(&node.username), password: copy_opt(&node.password) }
}

/// Whether this is how a proxy of a node is reached that is dialled at a host.
pub open spec fn is_edge(n: NodeView, host: Seq<char>, e: EdgeOptions) -> bool {
    &&& e.host@ == host
    &&& text::opt_view(e.host_header) == n.ws_host
    &&& text::opt_view(e.sni) == n.server_name
    &&& e.allow_insecure == n.skip_cert_verify
    &&& e.tls == n.tls
}

pub fn to_edge(node: &ProxyNode, dial_host: &str) -> (r: EdgeOptions)
    ensures
        is_edge(node@, dial_host@, r),
{
    EdgeOptions {
        host: dial_host.to_owned(),
        host_header: copy_opt(&node.ws_host),
        sni: copy_opt(&node.server_name),
        allow_insecure: node.skip_cert_verify,
        tls: node.tls,
    }
}

/// Whether these are the options of the protocol of a node that is dialled at a
/// host; there are some for each protocol with an outbound.
pub open spec fn is_outbound(n: NodeView, host: Seq<char>, o: Option<OutboundKind>) -> bool {
    let t = text::lowered(n.kind);
    match o {
        Some(OutboundKind::Vless(x)) => t == "vless"@ && is_vless(n, host, x),
        Some(OutboundKind::Trojan(x)) => t == "trojan"@ && is_trojan(n, host, x),
        Some(OutboundKind::Shadowsocks(x)) => t == "ss"@ && is_ss(n, host, x),
        Some(OutboundKind::Vmess(x)) => t == "vmess"@ && is_vmess(n, host, x),
        Some(OutboundKind::Socks5(x)) => t == "socks5"@ && text::opt_view(x.username) == n.username
            && text::opt_view(x.password) == n.password,
        Some(OutboundKind::Http(x)) => t == "http"@ && text::opt_view(x.username) == n.username
            && text::opt_view(x.password) == n.password,
        None => !node::known_type(t),
    }
}

/// The options of the protocol of a node.
pub fn to_outbound(node: &ProxyNode, dial_host: &str) -> (r: Option<OutboundKind>)
    ensures
        is_outbound(node@, dial_host@, r),
{
    let c = text::chars_of(node.kind.as_str());
    let t = text::lower(c.as_slice());
    let t = t.as_slice();
    if text::is(t, "vless") {
        Some(OutboundKind::Vless(to_vless(node, dial_host)))
    } else if text::is(t, "trojan") {
        Some(OutboundKind::Trojan(to_trojan(node, dial_host)))
    } else if text::is(t, "ss") {
        Some(OutboundKind::Shadowsocks(to_ss(node, dial_host)))
    } else if text::is(t, "vmess") {
        Some(OutboundKind::Vmess(to_vmess(node, dial_host)))
    } else if text::is(t, "socks5") {
        Some(OutboundKind::Socks5(to_socks(node)))
    } else if text::is(t, "http") {
        Some(OutboundKind::Http(to_http(node)))
    } else {
        None
    }
}

/// A transport of a kept node is one that a connection can have.
proof fn lemma_transport_known(n: NodeView)
    requires
        n.network == "tcp"@ || n.network == "ws"@ || n.network == "httpupgrade"@,
    ensures
        transport::transport_of(node_transport(n)) != TransportKind::Unsupported,
{
    reveal_strlit("tcp");
    reveal_strlit("ws");
    reveal_strlit("httpupgrade");
    assert(text::lowered("tcp"@) =~= "tcp"@);
    assert(text::lowered("ws"@) =~= "ws"@);
    assert(text::lowered("httpupgrade"@) =~= "httpupgrade"@);
}

/// The types with an outbound are six.
proof fn lemma_types_differ()
    ensures
        "vless"@ != "trojan"@ && "vless"@ != "ss"@ && "vless"@ != "vmess"@ && "vless"@ != "socks5"@
            && "vless"@ != "http"@,
        "trojan"@ != "ss"@ && "trojan"@ != "vmess"@ && "trojan"@ != "socks5"@ && "trojan"@
            != "http"@,
        "ss"@ != "vmess"@ && "ss"@ != "socks5"@ && "ss"@ != "http"@,
        "vmess"@ != "socks5"@ && "vmess"@ != "http"@,
        "socks5"@ != "http"@,
{
    reveal_strlit("vless");
    reveal_strlit("trojan");
    reveal_strlit("ss");
    reveal_strlit("vmess");
    reveal_strlit("socks5");
    reveal_strlit("http");
    assert("vless"@[1] == 'l' && "vmess"@[1] == 'm');
    assert("ss"@.len() == 2 && "vmess"@.len() == 5 && "socks5"@.len() == 6 && "http"@.len() == 4);
    assert("trojan"@[0] == 't' && "socks5"@[0] == 's');
}

/// A letter in lower case comes of no white space.
proof fn lemma_letter(c: char)
    requires
        'a' <= text::lower_char(c) <= 'z',
    ensures
        !text::is_white(c),
{
}

/// The type of a VLESS node is in normal form but for the case of its letters.
proof fn lemma_vless_type(k: Seq<char>)
    requires
        text::lowered(k) == "vless"@,
    ensures
        node::normal_type(k) == "vless"@,
{
    reveal_strlit("vless");
    assert(k.len() == text::lowered(k).len());
    assert(text::lowered(k)[0] == 'v' && text::lowered(k)[4] == 's');
    lemma_letter(k[0]);
    lemma_letter(k[4]);
    assert(k.last() == k[4]);
    assert(text::trimmed(k) == k);
    reveal_strlit("shadowsocks");
    reveal_strlit("ss");
    reveal_strlit("socks");
    reveal_strlit("socks5");
    reveal_strlit("https");
    assert("vless"@[0] == 'v' && "socks"@[0] == 's' && "https"@[0] == 'h');
}

/// Every node that is accepted, of a type with an outbound and with its transport in
/// normal form, has its options and its layers: VLESS, Trojan, Shadowsocks, VMess,
/// SOCKS5 and HTTP. The flow of a VLESS node stands without space around it.
pub proof fn law_accepted_nodes_are_dialled(
    n: NodeView,
    host: Seq<char>,
    o: Option<OutboundKind>,
    edge: EdgeOptions,
)
    requires
        node::accepted(n),
        node::known_type(text::lowered(n.kind)),
        n.network == "tcp"@ || n.network == "ws"@ || n.network == "httpupgrade"@,
        text::lowered(n.kind) == "vless"@ ==> text::trimmed(node::or_empty(n.flow))
            == node::or_empty(n.flow),
        is_outbound(n, host, o),
    ensures
        o is Some,
        dial::dial_outcome(n.kind, o, edge) is Ok,
{
    lemma_transport_known(n);
    lemma_types_differ();
    if text::lowered(n.kind) == "vless"@ {
        lemma_vless_type(n.kind);
    }
}

/// The types with an outbound are in lower case.
proof fn lemma_types_are_lower(k: Seq<char>)
    requires
        node::known_type(k),
    ensures
        text::lowered(k) == k,
{
    reveal_strlit("vless");
    reveal_strlit("trojan");
    reveal_strlit("ss");
    reveal_strlit("vmess");
    reveal_strlit("socks5");
    reveal_strlit("http");
    assert(text::lowered(k) =~= k);
}

/// Every node of a subscription can be dialled, whatever protocol it has. The flow of a
/// VLESS node stands without space around it.
pub proof fn law_subscribed_nodes_are_dialled(
    s: Seq<char>,
    i: int,
    host: Seq<char>,
    o: Option<OutboundKind>,
    edge: EdgeOptions,
)
    requires
        0 <= i < catalog::text_nodes(s).len(),
        ({
            let n = catalog::text_nodes(s)[i];
            &&& n.kind == "vless"@ ==> text::trimmed(node::or_empty(n.flow)) == node::or_empty(
                n.flow,
            )
            &&& is_outbound(n, host, o)
        }),
    ensures
        o is Some,
        dial::dial_outcome(catalog::text_nodes(s)[i].kind, o, edge) is Ok,
{
    let n = catalog::text_nodes(s)[i];
    catalog::law_parsed_nodes(s, i);
    lemma_types_are_lower(n.kind);
    law_accepted_nodes_are_dialled(n, host, o, edge);
}

/// A connection begins with what a node offers: an error comes only from a host that
/// is too long, an id that is none, a plugin or a cipher that is not known.
pub proof fn law_connections_begin(
    o: OutboundKind,
    host: Seq<char>,
    port: u16,
    now: u64,
    r: Result<Session, ProxyError>,
)
    requires
        dial::begun(o, host, port, now, r),
        address::address_bytes(host, 1, 3, 4) is Some,
        match o {
            OutboundKind::Vless(x) => crypto::uuid_bytes(x.id@) is Some,
            OutboundKind::Trojan(_) => true,
            OutboundKind::Shadowsocks(x) => ss::options_plugin(x) is Ok && ss::cipher_of(
                x.method@,
            ) is Some,
            OutboundKind::Vmess(x) => crypto::uuid_bytes(x.id@) is Some
                && vmess::stream::security_of(options::vmess_cipher(x.security@)) is Some,
            OutboundKind::Socks5(_) => true,
            OutboundKind::Http(_) => true,
        },
    ensures
        r is Ok,
{
    reveal(vmess::stream::requested);
}

// ---- from a link to a connection ----
/// What a VLESS link says reaches the connection: the id, the public key and the short id,
/// the flow, and the name that the encryption asks for.
pub proof fn law_vless_link_is_dialled(
    l: LinkView,
    b: Seq<(Seq<char>, Seq<char>)>,
    host: Seq<char>,
    o: VlessOptions,
    sni: Seq<char>,
    key: Seq<char>,
    sid: Seq<char>,
)
    requires
        share_link::with_pairs(l, b),
        l.host is Some,
        link::plain(l.username),
        is_vless(share_link::vless_node(l)->0, host, o),
        share_link::gives(b, "sni"@, sni),
        share_link::gives(b, "pbk"@, key),
        share_link::gives(b, "sid"@, sid),
        key.len() > 0,
    ensures
        o.id@ == l.username,
        o.host@ == host,
        l.port is Some && l.port->0 > 0 ==> o.port == l.port->0,
        o.security == VlessSecurity::Reality,
        ({
            let s = dial::vless_layers(o).security;
            &&& s is Reality
            &&& s->Reality_name == sni
            &&& s->public_key == key
            &&& s->short_id == Some(sid)
        }),
{
    share_link::law_vless_link_reads_back(l, b);
}

/// What a Trojan link says reaches the connection: the password, the name that TLS asks
/// for, and whether the certificate is looked at.
pub proof fn law_trojan_link_is_dialled(
    l: LinkView,
    b: Seq<(Seq<char>, Seq<char>)>,
    host: Seq<char>,
    o: TrojanOptions,
    sni: Seq<char>,
)
    requires
        share_link::with_pairs(l, b),
        l.host is Some,
        link::plain(l.username),
        is_trojan(share_link::trojan_node(l)->0, host, o),
        share_link::gives(b, "sni"@, sni),
        share_link::lacks(b, "allowinsecure"@),
        share_link::lacks(b, "insecure"@),
    ensures
        o.password@ == l.username,
        o.host@ == host,
        ({
            let s = dial::trojan_layers(o).security;
            s is Tls && s->Tls_name == sni && !s->insecure
        }),
{
    share_link::law_trojan_link_reads_back(l, b);
}

/// What a link says of a WebSocket reaches the connection: the transport, its path and its
/// host.
pub proof fn law_websocket_link_is_dialled(
    l: LinkView,
    b: Seq<(Seq<char>, Seq<char>)>,
    host: Seq<char>,
    o: VlessOptions,
    path: Seq<char>,
    name: Seq<char>,
)
    requires
        share_link::with_pairs(l, b),
        l.host is Some,
        link::plain(l.username),
        is_vless(share_link::vless_node(l)->0, host, o),
        share_link::gives(b, "type"@, "ws"@),
        share_link::gives(b, "path"@, path),
        share_link::gives(b, "host"@, name),
        path.len() > 0,
        path[0] == '/',
        name.len() > 0,
    ensures
        dial::vless_layers(o).transport == TransportKind::WebSocket,
        dial::vless_layers(o).path == path,
        dial::vless_layers(o).host == name,
{
    share_link::law_vless_link_reads_back(l, b);
    reveal_strlit("ws");
    reveal_strlit("websocket");
    assert(text::lowered("ws"@) =~= "ws"@);
    assert("ws"@.len() == 2 && "websocket"@.len() == 9);
    transport::law_transport_names("ws"@);
}

/// The options of a node are those of the node: id or password, cipher, plugin,
/// transport, path, host, server name and port.
pub proof fn law_options_are_those_of_the_node(n: NodeView, host: Seq<char>, o: Option<OutboundKind>)
    requires
        is_outbound(n, host, o),
        o is Some,
        n.network.len() > 0,
    ensures
        match o->0 {
            OutboundKind::Vless(x) => {
                &&& n.uuid is Some ==> x.id@ == n.uuid->0
                &&& x.host@ == host && x.port == n.port
                &&& text::opt_view(x.sni) == n.server_name
                &&& text::opt_view(x.path) == n.ws_path
                &&& text::opt_view(x.host_header) == n.ws_host
                &&& x.transport@ == n.network
                &&& text::opt_view(x.flow) == n.flow
                &&& x.allow_insecure == n.skip_cert_verify
                &&& n.reality_public_key is None && n.tls ==> x.security == VlessSecurity::Tls
                &&& n.reality_public_key is None && !n.tls ==> x.security == VlessSecurity::Plain
            },
            OutboundKind::Trojan(x) => {
                &&& n.password is Some ==> x.password@ == n.password->0
                &&& x.host@ == host && x.port == n.port
                &&& text::opt_view(x.sni) == n.server_name
                &&& text::opt_view(x.path) == n.ws_path
                &&& text::opt_view(x.host_header) == n.ws_host
                &&& x.transport@ == n.network
                &&& x.allow_insecure == n.skip_cert_verify
            },
            OutboundKind::Shadowsocks(x) => {
                &&& n.password is Some ==> x.password@ == n.password->0
                &&& n.cipher is Some ==> x.method@ == n.cipher->0
                &&& n.cipher is None ==> x.method@ == "aes-256-gcm"@
                &&& x.host@ == host && x.port == n.port
                &&& text::opt_view(x.plugin) == n.plugin
                &&& text::opt_view(x.plugin_opts) == n.plugin_opts
                &&& x.transport@ == n.network
                &&& x.tls == n.tls
            },
            OutboundKind::Vmess(x) => {
                &&& n.uuid is Some ==> x.id@ == n.uuid->0
                &&& n.cipher is Some ==> x.security@ == n.cipher->0
                &&& x.alter_id == n.alter_id
                &&& x.host@ == host && x.port == n.port
                &&& text::opt_view(x.sni) == n.server_name
                &&& text::opt_view(x.path) == n.ws_path
                &&& text::opt_view(x.host_header) == n.ws_host
                &&& x.transport@ == n.network
                &&& x.tls == n.tls
                &&& x.allow_insecure == n.skip_cert_verify
            },
            OutboundKind::Socks5(x) => text::opt_view(x.username) == n.username
                && text::opt_view(x.password) == n.password,
            OutboundKind::Http(x) => text::opt_view(x.username) == n.username && text::opt_view(
                x.password,
            ) == n.password,
        },
{
}

// ---- health ----
#[derive(Clone, Copy, Debug, PartialEq, Eq, Structural)]
pub enum HealthStatus {
    Idle,
    Checking,
    Good,
    Slow,
    LatencyFailed,
}

#[derive(Clone, Debug)]
pub struct HealthCheckResult {
    pub latency_ok: bool,
    pub latency_ms: Option<i32>,
    pub status: HealthStatus,
}

/// Checks whether nodes answer, and how fast.
pub struct HealthChecker;

/// How long a check may take, in milliseconds.
pub const TIMEOUT_MS: u64 = 3000;

/// From how many milliseconds on a node is slow.
pub const SLOW_MS: i32 = 400;

/// How many checks run at a time.
pub const MAX_CONCURRENCY: usize = 30;

impl HealthChecker {
    /// The result of a check that took `ms` milliseconds, if the node answered
    /// in time.
    pub fn judge(answered: Option<i32>) -> (r: HealthCheckResult)
        ensures
            r.latency_ok == (answered is Some),
            r.latency_ms == answered,
            r.status == (match answered {
                Some(ms) => if ms >= SLOW_MS {
                    HealthStatus::Slow
                } else {
                    HealthStatus::Good
                },
                None => HealthStatus::LatencyFailed,
            }),
    {
        match answered {
            Some(ms) => HealthCheckResult {
                latency_ok: true,
                latency_ms: Some(ms),
                status: if ms >= SLOW_MS {
                    HealthStatus::Slow
                } else {
                    HealthStatus::Good
                },
            },
            None => HealthCheckResult {
                latency_ok: false,
                latency_ms: None,
                status: HealthStatus::LatencyFailed,
            },
        }
    }

    /// Whether an answer to the probe is the expected one.
    pub fn is_no_content(answer: &[u8]) -> (r: bool)
        ensures
            r == (answer@.len() > 0 && first_line_has(codec::utf8_text(answer@), " 204"@)),
    {
        if answer.len() == 0 {
            return false;
        }
        let s = codec::utf8_lossy(answer);
        status_line_has(s.as_str(), " 204")
    }
}

/// Whether the first line of a text holds another text.
pub open spec fn first_line_has(s: Seq<char>, pat: Seq<char>) -> bool {
    let l = text::lines_of(s);
    text::has(
        if l.len() > 0 {
            l[0]
        } else {
            Seq::empty()
        },
        pat,
    )
}

pub fn status_line_has(s: &str, pat: &str) -> (r: bool)
    ensures
        r == first_line_has(s@, pat@),
{
    let c = text::chars_of(s);
    let l = text::lines(c.as_slice());
    assert(text::texts(l@).len() == l@.len());
    if l.len() > 0 {
        assert(text::texts(l@)[0] == l@[0]@);
        text::contains(l[0], pat)
    } else {
        let none: Vec<char> = Vec::new();
        assert(none@ =~= Seq::<char>::empty());
        text::contains(none.as_slice(), pat)
    }
}

// ---- laws ----
/// A destination is its host and its port; the brackets of an IPv6 address do not belong to
/// the host.
pub proof fn law_destination_is_parted(h: Seq<char>, p: Seq<char>)
    requires
        h.len() > 0,
        p.len() > 0,
        forall|i: int| 0 <= i < h.len() ==> (#[trigger] h[i]) != '[' && h[i] != ']',
        forall|i: int| 0 <= i < p.len() ==> (#[trigger] p[i]) != ':',
    ensures
        !h.contains(':') ==> destination_parts(h + seq![':'] + p) == (h, p),
        h.contains(':') ==> destination_parts(seq!['['] + h + seq![']', ':'] + p) == (h, p),
{
    assert(!h.contains(']'));
    assert(!p.contains(':'));
    rules::law_split_undoes_join(h, p);
    reveal_strlit("[]");
    let m = "[]"@;
    assert(m =~= seq!['[', ']']);
    assert(h[0] != '[' && h[0] != ']');
    assert(h.last() != '[' && h.last() != ']') by {
        assert(h.last() == h[h.len() - 1]);
    }
    assert(!m.contains(h[0]) && !m.contains(h.last()));
    assert(text::without_any(h, m) == h);
}

/// White space around a name and a dot behind it are not looked up.
pub proof fn law_name_that_is_looked_up(h: Seq<char>)
    requires
        h.len() > 0,
        !text::is_white(h[0]),
        !text::is_white(h.last()),
        h.last() != '.',
    ensures
        lookup_host(h) == h,
        lookup_host(h + seq!['.']) == h,
        lookup_host(seq![' '] + h + seq![' ']) == h,
{
    let e = Seq::<char>::empty();
    let w = seq![' '];
    text::law_trim(w, h, w);
    let d = h + seq!['.'];
    assert(d.last() == '.' && d[0] == h[0]);
    text::law_trim(e, d, e);
    assert(d.drop_last() =~= h);
    assert(text::without_char_end(h, '.') == h);
}

/// The first IPv4 address of a list is taken.
pub proof fn law_first_four(v: Seq<IpView>, o: Seq<u8>, s: Seq<u8>)
    ensures
        first_four(seq![IpView::V4(o)] + v, 0) == Some(o),
        first_four(seq![IpView::V6(s), IpView::V4(o)] + v, 0) == Some(o),
        first_four(Seq::empty(), 0) is None,
{
    let a = seq![IpView::V4(o)] + v;
    let b = seq![IpView::V6(s), IpView::V4(o)] + v;
    assert(a[0] == IpView::V4(o));
    assert(b[0] == IpView::V6(s) && b[1] == IpView::V4(o));
    reveal_with_fuel(first_four, 2);
}

} // verus!
