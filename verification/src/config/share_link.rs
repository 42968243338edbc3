//! Share links of single nodes.

use vstd::prelude::*;

use crate::bindings;
use crate::bindings::Bindings;
use crate::codec;
use crate::config::link;
use crate::config::link::{Link, LinkView};
use crate::config::node;
use crate::config::node::{NodeView, ProxyNode};
use crate::json;
use crate::json::{Json, JsonView};
use crate::text;

verus! {

/// The percent decoded fragment, unless it is empty, else the host.
pub open spec fn link_name(l: LinkView) -> Seq<char> {
    if l.fragment is Some && link::url_decoded(l.fragment->0).len() > 0 {
        link::url_decoded(l.fragment->0)
    } else {
        node::or_empty(l.host)
    }
}

fn name_of(l: &Link) -> (r: Vec<char>)
    ensures
        r@ == link_name(l@),
{
    if let Some(f) = &l.fragment {
        let c = text::chars_of(f.as_str());
        let d = link::url_decode(c.as_slice());
        if d.len() > 0 {
            return d;
        }
    }
    node::chars_or_empty(&l.host)
}

pub open spec fn is_truthy(o: Option<Seq<char>>) -> bool {
    o == Some("1"@) || o == Some("true"@) || o == Some("True"@) || o == Some("yes"@)
}

fn truthy(o: &Option<String>) -> (r: bool)
    ensures
        r == is_truthy(text::opt_view(*o)),
{
    match o {
        Some(s) => {
            let c = text::chars_of(s.as_str());
            let c = c.as_slice();
            text::is(c, "1") || text::is(c, "true") || text::is(c, "True") || text::is(c, "yes")
        },
        None => false,
    }
}

/// The port of a link, or a default where it has none.
pub open spec fn port_or(l: LinkView, d: u16) -> u16 {
    match l.port {
        Some(p) => p,
        None => d,
    }
}

fn link_port(l: &Link, d: u16) -> (r: u16)
    ensures
        r == port_or(l@, d),
{
    match l.port {
        Some(p) => p,
        None => d,
    }
}

pub open spec fn query_of(l: LinkView) -> Seq<(Seq<char>, Seq<char>)> {
    link::query_pairs(node::or_empty(l.query))
}

pub open spec fn value_or(
    q: Seq<(Seq<char>, Seq<char>)>,
    k: Seq<char>,
    d: Seq<char>,
) -> Seq<char> {
    match bindings::value_of(q, k) {
        Some(v) => v,
        None => d,
    }
}

fn read_or(q: &Bindings, k: &str, d: &str) -> (r: Vec<char>)
    ensures
        r@ == value_or(q@, k@, d@),
{
    match q.get(k) {
        Some(v) => {
            let mut r: Vec<char> = Vec::new();
            text::append(&mut r, v);
            assert(r@ =~= v@);
            r
        },
        None => text::chars_of(d),
    }
}

/// The transport that a query names.
pub open spec fn query_network(q: Seq<(Seq<char>, Seq<char>)>) -> Seq<char> {
    node::ws_name(
        text::lowered(
            match bindings::value_either(q, "type"@, "network"@) {
                Some(n) => n,
                None => "tcp"@,
            },
        ),
    )
}

fn network_of(q: &Bindings) -> (r: Vec<char>)
    ensures
        r@ == query_network(q@),
{
    let n = match q.string_either("type", "network") {
        Some(n) => text::chars_of(n.as_str()),
        None => text::chars_of("tcp"),
    };
    node::to_ws_name(text::lower(n.as_slice()))
}

/// What the query of a VLESS or Trojan link says of the node.
pub open spec fn with_query(n: NodeView, q: Seq<(Seq<char>, Seq<char>)>) -> NodeView {
    NodeView {
        server_name: bindings::value_either(q, "sni"@, "servername"@),
        network: query_network(q),
        client_fingerprint: bindings::value_of(q, "fp"@),
        skip_cert_verify: is_truthy(bindings::value_either(q, "allowinsecure"@, "insecure"@)),
        ws_path: bindings::value_of(q, "path"@),
        ws_host: bindings::value_of(q, "host"@),
        ..n
    }
}

fn apply_query(node: ProxyNode, q: &Bindings) -> (r: ProxyNode)
    ensures
        r@ == with_query(node@, q@),
{
    let mut n = node;
    n.server_name = q.string_either("sni", "servername");
    let net = network_of(q);
    n.network = text::string_of(net.as_slice());
    n.client_fingerprint = q.string("fp");
    let skip = q.string_either("allowinsecure", "insecure");
    n.skip_cert_verify = truthy(&skip);
    n.ws_path = q.string("path");
    n.ws_host = q.string("host");
    n
}

/// The port of a link; 443 where it has none or names port zero.
pub open spec fn secure_port(l: LinkView) -> u16 {
    if port_or(l, 0) > 0 {
        port_or(l, 0)
    } else {
        443
    }
}

fn link_secure_port(l: &Link) -> (r: u16)
    ensures
        r == secure_port(l@),
{
    let p: u16 = link_port(l, 0);
    if p > 0 {
        p
    } else {
        443
    }
}

/// The node of a VLESS link. A public key makes it a REALITY node.
pub open spec fn vless_node(l: LinkView) -> Option<NodeView> {
    let q = query_of(l);
    let pbk = bindings::value_of(q, "pbk"@);
    let security = if node::or_empty(pbk).len() > 0 {
        "reality"@
    } else {
        text::lowered(text::trimmed(value_or(q, "security"@, "none"@)))
    };
    let name = link_name(l);
    match l.host {
        None => None,
        Some(host) => Some(
            with_query(
                NodeView {
                    name: if text::trimmed(name).len() == 0 {
                        host
                    } else {
                        name
                    },
                    kind: "vless"@,
                    server: host,
                    port: secure_port(l),
                    uuid: Some(link::url_decoded(l.username)),
                    tls: security == "tls"@ || security == "reality"@,
                    flow: bindings::value_of(q, "flow"@),
                    reality_public_key: pbk,
                    reality_short_id: bindings::value_of(q, "sid"@),
                    security: Some(security),
                    ..node::blank_node()
                },
                q,
            ),
        ),
    }
}

fn query_map(l: &Link) -> (r: Bindings)
    ensures
        r@ == query_of(l@),
{
    let q = node::chars_or_empty(&l.query);
    link::parse_query(q.as_slice())
}

pub fn vless_from_link(l: &Link) -> (r: Option<ProxyNode>)
    ensures
        node::opt_node(r) == vless_node(l@),
{
    let q = query_map(l);
    let host = match &l.host {
        Some(h) => h.clone(),
        None => return None,
    };
    let pbk = q.string("pbk");
    let key = node::chars_or_empty(&pbk);
    let security = if key.len() > 0 {
        text::chars_of("reality")
    } else {
        let s = read_or(&q, "security", "none");
        text::lower(text::trim(s.as_slice()))
    };
    let name = name_of(l);
    let user = text::chars_of(l.username.as_str());
    let uuid = link::url_decode(user.as_slice());
    let mut n = ProxyNode::default();
    n.name = if text::trim(name.as_slice()).len() == 0 {
        host.clone()
    } else {
        text::string_of(name.as_slice())
    };
    n.kind = "vless".to_owned();
    n.server = host;
    n.port = link_secure_port(l);
    n.uuid = Some(text::string_of(uuid.as_slice()));
    n.tls = text::is(security.as_slice(), "tls") || text::is(security.as_slice(), "reality");
    n.flow = q.string("flow");
    n.reality_public_key = pbk;
    n.reality_short_id = q.string("sid");
    n.security = Some(text::string_of(security.as_slice()));
    Some(apply_query(n, &q))
}

/// The node that follows from an optional link.
pub open spec fn vless_of(l: Option<LinkView>) -> Option<NodeView> {
    match l {
        Some(l) => vless_node(l),
        None => None,
    }
}

pub fn parse_vless(url: &str) -> (r: Option<ProxyNode>)
    ensures
        node::opt_node(r) == vless_of(link::url_parts(url@)),
{
    match link::parse_link(url) {
        Some(l) => vless_from_link(&l),
        None => None,
    }
}

/// The node of a Trojan link.
pub open spec fn trojan_node(l: LinkView) -> Option<NodeView> {
    let q = query_of(l);
    let security = text::lowered(value_or(q, "security"@, "tls"@));
    match l.host {
        None => None,
        Some(host) => Some(
            with_query(
                NodeView {
                    name: link_name(l),
                    kind: "trojan"@,
                    server: host,
                    port: secure_port(l),
                    password: Some(link::url_decoded(l.username)),
                    tls: security != "none"@,
                    security: Some(security),
                    ..node::blank_node()
                },
                q,
            ),
        ),
    }
}

pub fn trojan_from_link(l: &Link) -> (r: Option<ProxyNode>)
    ensures
        node::opt_node(r) == trojan_node(l@),
{
    let q = query_map(l);
    let host = match &l.host {
        Some(h) => h.clone(),
        None => return None,
    };
    let s = read_or(&q, "security", "tls");
    let security = text::lower(s.as_slice());
    let name = name_of(l);
    let user = text::chars_of(l.username.as_str());
    let password = link::url_decode(user.as_slice());
    let mut n = ProxyNode::default();
    n.name = text::string_of(name.as_slice());
    n.kind = "trojan".to_owned();
    n.server = host;
    n.port = link_secure_port(l);
    n.password = Some(text::string_of(password.as_slice()));
    n.tls = !text::is(security.as_slice(), "none");
    n.security = Some(text::string_of(security.as_slice()));
    Some(apply_query(n, &q))
}

pub open spec fn trojan_of(l: Option<LinkView>) -> Option<NodeView> {
    match l {
        Some(l) => trojan_node(l),
        None => None,
    }
}

pub fn parse_trojan(url: &str) -> (r: Option<ProxyNode>)
    ensures
        node::opt_node(r) == trojan_of(link::url_parts(url@)),
{
    match link::parse_link(url) {
        Some(l) => trojan_from_link(&l),
        None => None,
    }
}

/// A percent decoded text, unless it is empty.
pub open spec fn decoded_nonempty(s: Seq<char>) -> Option<Seq<char>> {
    let d = link::url_decoded(s);
    if d.len() == 0 {
        None
    } else {
        Some(d)
    }
}

fn decode_nonempty(s: &String) -> (r: Option<String>)
    ensures
        text::opt_view(r) == decoded_nonempty(s@),
{
    let c = text::chars_of(s.as_str());
    let d = link::url_decode(c.as_slice());
    if d.len() == 0 {
        None
    } else {
        Some(text::string_of(d.as_slice()))
    }
}

pub open spec fn decoded_opt(o: Option<Seq<char>>) -> Option<Seq<char>> {
    match o {
        Some(s) => Some(link::url_decoded(s)),
        None => None,
    }
}

fn decode_opt(o: &Option<String>) -> (r: Option<String>)
    ensures
        text::opt_view(r) == decoded_opt(text::opt_view(*o)),
{
    match o {
        Some(s) => {
            let c = text::chars_of(s.as_str());
            let d = link::url_decode(c.as_slice());
            Some(text::string_of(d.as_slice()))
        },
        None => None,
    }
}

/// The node of a SOCKS link.
pub open spec fn socks_node(l: LinkView) -> Option<NodeView> {
    match l.host {
        None => None,
        Some(host) => Some(
            NodeView {
                name: link_name(l),
                kind: "socks5"@,
                server: host,
                port: port_or(l, 1080),
                username: decoded_nonempty(l.username),
                password: decoded_opt(l.password),
                ..node::blank_node()
            },
        ),
    }
}

pub fn socks_from_link(l: &Link) -> (r: Option<ProxyNode>)
    ensures
        node::opt_node(r) == socks_node(l@),
{
    let host = match &l.host {
        Some(h) => h.clone(),
        None => return None,
    };
    let name = name_of(l);
    let mut n = ProxyNode::default();
    n.name = text::string_of(name.as_slice());
    n.kind = "socks5".to_owned();
    n.server = host;
    n.port = link_port(l, 1080);
    n.username = decode_nonempty(&l.username);
    n.password = decode_opt(&l.password);
    Some(n)
}

pub open spec fn socks_of(l: Option<LinkView>) -> Option<NodeView> {
    match l {
        Some(l) => socks_node(l),
        None => None,
    }
}

pub fn parse_socks_link(url: &str) -> (r: Option<ProxyNode>)
    ensures
        node::opt_node(r) == socks_of(link::url_parts(url@)),
{
    match link::parse_link(url) {
        Some(l) => socks_from_link(&l),
        None => None,
    }
}

/// The node of an HTTP proxy link, which has no path.
pub open spec fn http_node(l: LinkView) -> Option<NodeView> {
    if l.path.len() > 0 && l.path != "/"@ {
        None
    } else {
        match l.host {
            None => None,
            Some(host) => Some(
                NodeView {
                    name: link_name(l),
                    kind: "http"@,
                    server: host,
                    port: port_or(
                        l,
                        if l.scheme == "https"@ {
                            443
                        } else {
                            80
                        },
                    ),
                    username: decoded_nonempty(l.username),
                    password: decoded_opt(l.password),
                    tls: l.scheme == "https"@,
                    ..node::blank_node()
                },
            ),
        }
    }
}

pub fn http_from_link(l: &Link) -> (r: Option<ProxyNode>)
    ensures
        node::opt_node(r) == http_node(l@),
{
    let path = text::chars_of(l.path.as_str());
    if path.len() > 0 && !text::is(path.as_slice(), "/") {
        return None;
    }
    let host = match &l.host {
        Some(h) => h.clone(),
        None => return None,
    };
    let scheme = text::chars_of(l.scheme.as_str());
    let tls = text::is(scheme.as_slice(), "https");
    let name = name_of(l);
    let mut n = ProxyNode::default();
    n.name = text::string_of(name.as_slice());
    n.kind = "http".to_owned();
    n.server = host;
    n.port = link_port(
        l,
        if tls {
            443
        } else {
            80
        },
    );
    n.username = decode_nonempty(&l.username);
    n.password = decode_opt(&l.password);
    n.tls = tls;
    Some(n)
}

pub open spec fn http_of(l: Option<LinkView>) -> Option<NodeView> {
    match l {
        Some(l) => http_node(l),
        None => None,
    }
}

pub fn parse_http_link(url: &str) -> (r: Option<ProxyNode>)
    ensures
        node::opt_node(r) == http_of(link::url_parts(url@)),
{
    match link::parse_link(url) {
        Some(l) => http_from_link(&l),
        None => None,
    }
}

// ---- Base64 texts ----
/// `n` equals signs.
pub open spec fn padding(n: int) -> Seq<char> {
    Seq::new(n as nat, |i: int| '=')
}

/// A Base64 text with the padding that its length asks for.
pub open spec fn padded(s: Seq<char>) -> Seq<char> {
    let m = vstd::utf8::encode_utf8(s).len() % 4;
    if m == 0 {
        s
    } else {
        s + padding(4 - m)
    }
}

pub fn pad(s: &[char]) -> (r: String)
    ensures
        r@ == padded(s@),
{
    let t = text::string_of(s);
    let m: usize = t.as_str().as_bytes().len() % 4;
    let mut out: Vec<char> = Vec::new();
    text::append(&mut out, s);
    assert(out@ =~= s@ + padding(0));
    let mut i: usize = 0;
    let n: usize = if m == 0 {
        0
    } else {
        4 - m
    };
    while i < n
        invariant
            i <= n,
            out@ =~= s@ + padding(i as int),
        decreases n - i,
    {
        out.push('=');
        i += 1;
    }
    proof {
        assert(s@ + padding(0) =~= s@);
    }
    text::string_of(out.as_slice())
}

/// The URL safe alphabet written in the standard one.
pub open spec fn standard_alphabet(s: Seq<char>) -> Seq<char> {
    text::replaced(text::replaced(s, "-"@, "+"@), "_"@, "/"@)
}

pub fn to_standard_alphabet(s: &[char]) -> (r: Vec<char>)
    ensures
        r@ == standard_alphabet(s@),
{
    let a = text::replace(s, "-", "+");
    text::replace(a.as_slice(), "_", "/")
}

/// The text that optional bytes write in UTF-8.
pub open spec fn utf8_text(b: Option<Seq<u8>>) -> Option<Seq<char>> {
    match b {
        Some(b) => if vstd::utf8::valid_utf8(b) {
            Some(vstd::utf8::decode_utf8(b))
        } else {
            None
        },
        None => None,
    }
}

/// What a Base64 text decodes to, once padded.
pub open spec fn base64_bytes(s: Seq<char>) -> Option<Seq<u8>> {
    codec::base64_decoded(vstd::utf8::encode_utf8(padded(s)))
}

/// The text that a Base64 text holds, in the standard alphabet or the URL safe
/// one, with or without padding.
pub open spec fn base64_text(s: Seq<char>) -> Option<Seq<char>> {
    match base64_bytes(s) {
        Some(b) => utf8_text(Some(b)),
        None => utf8_text(base64_bytes(standard_alphabet(s))),
    }
}

pub fn decode_padded(s: &[char]) -> (r: Option<Vec<u8>>)
    ensures
        codec::opt_bytes(r) == base64_bytes(s@),
{
    let p = pad(s);
    codec::base64_decode(p.as_str())
}

pub fn string_of_bytes(b: Option<Vec<u8>>) -> (r: Option<String>)
    ensures
        text::opt_view(r) == utf8_text(codec::opt_bytes(b)),
{
    match b {
        Some(b) => codec::utf8_string(b),
        None => None,
    }
}

pub fn decode_b64_url(s: &[char]) -> (r: Option<String>)
    ensures
        text::opt_view(r) == base64_text(s@),
{
    match decode_padded(s) {
        Some(b) => string_of_bytes(Some(b)),
        None => {
            let alt = to_standard_alphabet(s);
            string_of_bytes(decode_padded(alt.as_slice()))
        },
    }
}

// ---- Shadowsocks links ----
/// Host and port of an authority; an IPv6 host stands in brackets.
pub open spec fn authority(s: Seq<char>) -> Option<(Seq<char>, int)> {
    let t = text::trimmed(s);
    match text::after_prefix(t, "["@) {
        Some(r) => match text::cut(r, ']') {
            Some((host, rest)) => match text::unsigned_value(
                text::without_prefixes(rest, ":"@),
                0xffff,
            ) {
                Some(port) => Some((host, port)),
                None => None,
            },
            None => None,
        },
        None => match text::cut_last(t, ':') {
            Some((host, port)) => match text::unsigned_value(port, 0xffff) {
                Some(port) => Some((host, port)),
                None => None,
            },
            None => None,
        },
    }
}

pub fn split_host_port_str(s: &[char]) -> (r: Option<(String, u16)>)
    ensures
        match r {
            Some((h, p)) => authority(s@) == Some((h@, p as int)),
            None => authority(s@) is None,
        },
{
    let t = text::trim(s);
    match text::strip_prefix(t, "[") {
        Some(r) => match text::split_once(r, ']') {
            Some((host, rest)) => match text::parse_u16(text::trim_start_matches(rest, ":")) {
                Some(port) => Some((text::string_of(host), port)),
                None => None,
            },
            None => None,
        },
        None => match text::rsplit_once(t, ':') {
            Some((host, port)) => match text::parse_u16(port) {
                Some(port) => Some((text::string_of(host), port)),
                None => None,
            },
            None => None,
        },
    }
}

/// The options of a query other than `plugin`, from binding `i` on, as
/// `key=value` texts that a semicolon separates. A key counts at its last
/// binding.
pub open spec fn other_options(
    q: Seq<(Seq<char>, Seq<char>)>,
    i: int,
    acc: Option<Seq<char>>,
) -> Option<Seq<char>>
    decreases q.len() - i,
{
    if i >= q.len() {
        acc
    } else if q[i].0 == "plugin"@ || bound_later(q, i) {
        other_options(q, i + 1, acc)
    } else {
        other_options(q, i + 1, crate::config::yaml::option_added(acc, q[i].0, Some(q[i].1)))
    }
}

/// Whether a later binding replaces binding `i`.
pub open spec fn bound_later(q: Seq<(Seq<char>, Seq<char>)>, i: int) -> bool {
    exists|j: int| i < j < q.len() && (#[trigger] q[j]).0 == q[i].0
}

fn is_bound_later(q: &Bindings, i: usize) -> (r: bool)
    requires
        i < q@.len(),
    ensures
        r == bound_later(q@, i as int),
{
    let n: usize = q.items.len();
    let mut j: usize = i + 1;
    while j < n
        invariant
            i < j <= n,
            n == q.items@.len(),
            i < q@.len(),
            forall|k: int| i < k < j ==> (#[trigger] q@[k]).0 != q@[i as int].0,
        decreases q.items@.len() - j,
    {
        if text::same(q.items[j].0.as_slice(), q.items[i].0.as_slice()) {
            assert(q@[j as int].0 == q@[i as int].0);
            return true;
        }
        j += 1;
    }
    false
}

fn join_other_options(q: &Bindings) -> (r: Option<String>)
    ensures
        text::opt_view(r) == other_options(q@, 0, None),
{
    let mut acc: Option<Vec<char>> = None;
    let mut i: usize = 0;
    while i < q.items.len()
        invariant
            i <= q.items@.len(),
            other_options(q@, 0, None) == other_options(
                q@,
                i as int,
                match acc {
                    Some(x) => Some(x@),
                    None => None,
                },
            ),
        decreases q.items@.len() - i,
    {
        assert(q@[i as int] == (q.items@[i as int].0@, q.items@[i as int].1@));
        if !text::is(q.items[i].0.as_slice(), "plugin") && !is_bound_later(q, i) {
            let label = text::string_of(q.items[i].0.as_slice());
            acc =
            crate::config::yaml::add_option(
                acc,
                label.as_str(),
                Some(q.items[i].1.as_slice()),
            );
        }
        i += 1;
    }
    match acc {
        Some(x) => Some(text::string_of(x.as_slice())),
        None => None,
    }
}

/// The node of a Shadowsocks link whose user part has been decoded.
pub open spec fn ss_node(
    userinfo: Seq<char>,
    hostport: Seq<char>,
    query: Seq<char>,
    fragment: Option<Seq<char>>,
) -> Option<NodeView> {
    match (text::cut(userinfo, ':'), authority(hostport)) {
        (Some((method, password)), Some((host, port))) => {
            let q = link::query_pairs(query);
            let plugin = bindings::value_of(q, "plugin"@);
            let named = match plugin {
                Some(p) => text::cut(p, ';'),
                None => None,
            };
            Some(
                NodeView {
                    name: if fragment is Some && link::url_decoded(fragment->0).len() > 0 {
                        link::url_decoded(fragment->0)
                    } else {
                        host
                    },
                    kind: "ss"@,
                    server: host,
                    port: port as u16,
                    password: Some(password),
                    cipher: Some(method),
                    plugin: match named {
                        Some((n, _)) => Some(n),
                        None => plugin,
                    },
                    plugin_opts: match named {
                        Some((_, o)) => Some(o),
                        None => if plugin is Some {
                            other_options(q, 0, None)
                        } else {
                            None
                        },
                    },
                    ..node::blank_node()
                },
            )
        },
        _ => None,
    }
}

pub fn ss_from_parts(
    userinfo: &[char],
    hostport: &[char],
    query: &[char],
    fragment: Option<&[char]>,
) -> (r: Option<ProxyNode>)
    ensures
        node::opt_node(r) == ss_node(userinfo@, hostport@, query@, text::opt_slice(fragment)),
{
    let (method, password) = match text::split_once(userinfo, ':') {
        Some((m, p)) => (m, p),
        None => return None,
    };
    let (host, port) = match split_host_port_str(hostport) {
        Some((h, p)) => (h, p),
        None => return None,
    };
    let q = link::parse_query(query);
    let mut n = ProxyNode::default();
    if let Some(p) = q.get("plugin") {
        match text::split_once(p, ';') {
            Some((name, opts)) => {
                n.plugin = Some(text::string_of(name));
                n.plugin_opts = Some(text::string_of(opts));
            },
            None => {
                n.plugin = Some(text::string_of(p));
                n.plugin_opts = join_other_options(&q);
            },
        }
    }
    n.name = host.clone();
    if let Some(f) = fragment {
        let d = link::url_decode(f);
        if d.len() > 0 {
            n.name = text::string_of(d.as_slice());
        }
    }
    n.kind = "ss".to_owned();
    n.server = host;
    n.port = port;
    n.password = Some(text::string_of(password));
    n.cipher = Some(text::string_of(method));
    Some(n)
}

/// The user part of a Shadowsocks link: percent encoded where it shows its
/// colon, else in Base64.
pub open spec fn ss_userinfo(left: Seq<char>) -> Option<Seq<char>> {
    if text::has(left, ":"@) {
        Some(link::url_decoded(left))
    } else {
        base64_text(left)
    }
}

fn decode_ss_userinfo(left: &[char]) -> (r: Option<String>)
    ensures
        text::opt_view(r) == ss_userinfo(left@),
{
    if text::contains(left, ":") {
        let d = link::url_decode(left);
        Some(text::string_of(d.as_slice()))
    } else {
        decode_b64_url(left)
    }
}

/// The node of a Shadowsocks link: with an at sign, the user part, host, port
/// and query; without one, all of it in Base64.
pub open spec fn ss_link_node(url: Seq<char>) -> Option<NodeView> {
    let (rest, fragment) = match text::cut(url, '#') {
        Some((a, b)) => (a, Some(b)),
        None => (url, None),
    };
    let body = text::without_prefixes(text::without_prefixes(rest, "ss://"@), "SS://"@);
    match text::cut_last(body, '@') {
        Some((left, right)) => {
            let (hp, q) = match text::cut(right, '?') {
                Some((a, b)) => (a, b),
                None => (right, Seq::empty()),
            };
            match ss_userinfo(left) {
                Some(u) => ss_node(u, hp, q, fragment),
                None => None,
            }
        },
        None => match base64_text(text::compacted(body)) {
            Some(d) => match text::cut(d, '@') {
                Some((left, right)) => ss_node(left, right, Seq::empty(), fragment),
                None => None,
            },
            None => None,
        },
    }
}

pub fn parse_ss(url: &str) -> (r: Option<ProxyNode>)
    ensures
        node::opt_node(r) == ss_link_node(url@),
{
    let c = text::chars_of(url);
    let whole = c.as_slice();
    let (rest, fragment): (&[char], Option<&[char]>) = match text::split_once(whole, '#') {
        Some((a, b)) => (a, Some(b)),
        None => (whole, None),
    };
    let body = text::trim_start_matches(text::trim_start_matches(rest, "ss://"), "SS://");
    let none: Vec<char> = Vec::new();
    assert(none@ =~= Seq::<char>::empty());
    match text::rsplit_once(body, '@') {
        Some((left, right)) => {
            let (hp, q): (&[char], &[char]) = match text::split_once(right, '?') {
                Some((a, b)) => (a, b),
                None => (right, none.as_slice()),
            };
            match decode_ss_userinfo(left) {
                Some(u) => {
                    let u = text::chars_of(u.as_str());
                    ss_from_parts(u.as_slice(), hp, q, fragment)
                },
                None => None,
            }
        },
        None => {
            let compact = text::compact(body);
            match decode_b64_url(compact.as_slice()) {
                Some(d) => {
                    let d = text::chars_of(d.as_str());
                    match text::split_once(d.as_slice(), '@') {
                        Some((left, right)) => ss_from_parts(
                            left,
                            right,
                            none.as_slice(),
                            fragment,
                        ),
                        None => None,
                    }
                },
                None => None,
            }
        },
    }
}

// ---- VMess links ----
/// A number that JSON gives as a number or as a text.
pub open spec fn loose_number(v: JsonView, k: Seq<char>) -> u64 {
    match v.entry(k) {
        Some(x) => match x.unsigned_value() {
            Some(n) => n,
            None => match x.text_value() {
                Some(s) => match text::unsigned_value(s, 0xffff_ffff_ffff_ffff) {
                    Some(n) => n as u64,
                    None => 0,
                },
                None => 0,
            },
        },
        None => 0,
    }
}

fn read_loose(v: &Json, k: &str) -> (r: u64)
    ensures
        r == loose_number(v@, k@),
{
    match v.get(k) {
        Some(x) => match x.as_u64() {
            Some(n) => n,
            None => match x.as_str() {
                Some(s) => {
                    let c = text::chars_of(s.as_str());
                    match text::parse_unsigned(c.as_slice(), 0xffff_ffff_ffff_ffff) {
                        Some(n) => n,
                        None => 0,
                    }
                },
                None => 0,
            },
        },
        None => 0,
    }
}

/// The node of a VMess document.
pub open spec fn vmess_node(v: JsonView) -> Option<NodeView> {
    match json::text_at(v, "add"@) {
        None => None,
        Some(server) => {
            let port = loose_number(v, "port"@) as u16;
            let t = json::text_at(v, "tls"@);
            let tls = t is Some && t->0.len() > 0 && !text::same_nocase(t->0, "none"@);
            let ps = json::text_at(v, "ps"@);
            if server.len() == 0 || port == 0 {
                None
            } else {
                Some(
                    NodeView {
                        name: if ps is Some && ps->0.len() > 0 {
                            ps->0
                        } else {
                            server
                        },
                        kind: "vmess"@,
                        server,
                        port,
                        uuid: json::text_at(v, "id"@),
                        tls,
                        server_name: json::text_at(v, "sni"@),
                        network: node::ws_name(
                            text::lowered(
                                match json::text_at(v, "net"@) {
                                    Some(n) => n,
                                    None => "tcp"@,
                                },
                            ),
                        ),
                        ws_path: json::text_at(v, "path"@),
                        ws_host: json::text_at(v, "host"@),
                        security: Some(
                            if tls {
                                "tls"@
                            } else {
                                "none"@
                            },
                        ),
                        cipher: json::text_at(v, "scy"@),
                        alter_id: loose_number(v, "aid"@) as u16,
                        ..node::blank_node()
                    },
                )
            }
        },
    }
}

pub fn vmess_from_json(v: &Json) -> (r: Option<ProxyNode>)
    ensures
        node::opt_node(r) == vmess_node(v@),
{
    let server = match json::jstr(v, "add") {
        Some(s) => s,
        None => return None,
    };
    let port: u16 = read_loose(v, "port") as u16;
    if server.as_str().is_empty() || port == 0 {
        return None;
    }
    let tls = match json::jstr(v, "tls") {
        Some(t) => {
            let c = text::chars_of(t.as_str());
            c.len() > 0 && !text::is_nocase(c.as_slice(), "none")
        },
        None => false,
    };
    let net = match json::jstr(v, "net") {
        Some(n) => text::chars_of(n.as_str()),
        None => text::chars_of("tcp"),
    };
    let network = node::to_ws_name(text::lower(net.as_slice()));
    let mut n = ProxyNode::default();
    n.name = server.clone();
    if let Some(ps) = json::jstr(v, "ps") {
        if !ps.as_str().is_empty() {
            n.name = ps;
        }
    }
    n.kind = "vmess".to_owned();
    n.server = server;
    n.port = port;
    n.uuid = json::jstr(v, "id");
    n.tls = tls;
    n.server_name = json::jstr(v, "sni");
    n.network = text::string_of(network.as_slice());
    n.ws_path = json::jstr(v, "path");
    n.ws_host = json::jstr(v, "host");
    n.security = Some(
        if tls {
            "tls".to_owned()
        } else {
            "none".to_owned()
        },
    );
    n.cipher = json::jstr(v, "scy");
    n.alter_id = read_loose(v, "aid") as u16;
    Some(n)
}

/// The node of a VMess link: a JSON document in Base64.
pub open spec fn vmess_link_node(url: Seq<char>) -> Option<NodeView> {
    let body = text::without_prefixes(text::without_prefixes(url, "vmess://"@), "VMESS://"@);
    match base64_text(body) {
        Some(d) => match json::json_value(d) {
            Some(v) => vmess_node(v),
            None => None,
        },
        None => None,
    }
}

pub fn parse_vmess(url: &str) -> (r: Option<ProxyNode>)
    ensures
        node::opt_node(r) == vmess_link_node(url@),
{
    let c = text::chars_of(url);
    let body = text::trim_start_matches(
        text::trim_start_matches(c.as_slice(), "vmess://"),
        "VMESS://",
    );
    match decode_b64_url(body) {
        Some(d) => match json::parse_json(d.as_str()) {
            Some(v) => vmess_from_json(&v),
            None => None,
        },
        None => None,
    }
}

// ---- all links ----
/// The node of a share link of any kind; the case of the scheme does not count.
pub open spec fn link_node(line: Seq<char>) -> Option<NodeView> {
    let l = text::trimmed(line);
    let low = text::lowered(l);
    if l.len() == 0 {
        None
    } else if text::starts(low, "vless://"@) {
        vless_of(link::url_parts(l))
    } else if text::starts(low, "trojan://"@) {
        trojan_of(link::url_parts(l))
    } else if text::starts(low, "ss://"@) {
        ss_link_node(l)
    } else if text::starts(low, "vmess://"@) {
        vmess_link_node(l)
    } else if text::starts(low, "socks5://"@) || text::starts(low, "socks://"@) {
        socks_of(link::url_parts(l))
    } else if text::starts(low, "http://"@) || text::starts(low, "https://"@) {
        http_of(link::url_parts(l))
    } else {
        None
    }
}

pub fn parse_share_link(line: &str) -> (r: Option<ProxyNode>)
    ensures
        node::opt_node(r) == link_node(line@),
{
    let c = text::chars_of(line);
    let l = text::trim(c.as_slice());
    if l.len() == 0 {
        return None;
    }
    let low = text::lower(l);
    let low = low.as_slice();
    let s = text::string_of(l);
    if text::starts_with(low, "vless://") {
        parse_vless(s.as_str())
    } else if text::starts_with(low, "trojan://") {
        parse_trojan(s.as_str())
    } else if text::starts_with(low, "ss://") {
        parse_ss(s.as_str())
    } else if text::starts_with(low, "vmess://") {
        parse_vmess(s.as_str())
    } else if text::starts_with(low, "socks5://") || text::starts_with(low, "socks://") {
        parse_socks_link(s.as_str())
    } else if text::starts_with(low, "http://") || text::starts_with(low, "https://") {
        parse_http_link(s.as_str())
    } else {
        None
    }
}

// ---- laws ----
/// Whether a binding is the last one of its key, whose letter case does not count.
pub open spec fn last_of_key(b: Seq<(Seq<char>, Seq<char>)>, i: int) -> bool {
    forall|j: int|
        i < j < b.len() ==> text::lowered((#[trigger] b[j]).0) != text::lowered(b[i].0)
}

/// Whether a query gives a key a value.
pub open spec fn gives(b: Seq<(Seq<char>, Seq<char>)>, k: Seq<char>, v: Seq<char>) -> bool {
    exists|i: int|
        0 <= i < b.len() && text::lowered((#[trigger] b[i]).0) == k && b[i].1 == v && last_of_key(
            b,
            i,
        )
}

/// Whether a query does not name a key.
pub open spec fn lacks(b: Seq<(Seq<char>, Seq<char>)>, k: Seq<char>) -> bool {
    forall|i: int| 0 <= i < b.len() ==> text::lowered((#[trigger] b[i]).0) != k
}

/// A link with a query of plain keys and values.
pub open spec fn with_pairs(l: LinkView, b: Seq<(Seq<char>, Seq<char>)>) -> bool {
    &&& b.len() > 0
    &&& link::plain_pairs(b)
    &&& l.query == Some(link::query_text(b))
}

proof fn lemma_query_gives(l: LinkView, b: Seq<(Seq<char>, Seq<char>)>, k: Seq<char>, v: Seq<char>)
    requires
        with_pairs(l, b),
    ensures
        gives(b, k, v) ==> bindings::value_of(query_of(l), k) == Some(v),
        lacks(b, k) ==> bindings::value_of(query_of(l), k) is None,
{
    link::law_query_reads_back(b);
    let q = query_of(l);
    if gives(b, k, v) {
        let i = choose|i: int|
            0 <= i < b.len() && text::lowered((#[trigger] b[i]).0) == k && b[i].1 == v
                && last_of_key(b, i);
        assert(q[i] == (k, v));
        assert forall|j: int| i < j < q.len() implies (#[trigger] q[j]).0 != q[i].0 by {
            assert(text::lowered(b[j].0) != text::lowered(b[i].0));
        }
        bindings::law_last_binding_counts(q, i);
    }
    if lacks(b, k) {
        assert forall|j: int| 0 <= j < q.len() implies (#[trigger] q[j]).0 != k by {
            assert(text::lowered(b[j].0) != k);
        }
        bindings::law_unbound_key(q, k);
    }
}

/// What the query of a link says of the name of the server and of the transport, for a
/// node of a VLESS or a Trojan link: `sni` is the name of the server, or `servername`
/// where it is missing; `type` is the transport, which is TCP where nothing says
/// otherwise; `fp` is the fingerprint, and `path` and `host` are those of the
/// transport. A certificate is accepted unseen only where the query asks for it.
pub open spec fn query_fields_read(n: NodeView, b: Seq<(Seq<char>, Seq<char>)>) -> bool {
    &&& forall|v: Seq<char>| #[trigger] gives(b, "sni"@, v) ==> n.server_name == Some(v)
    &&& forall|v: Seq<char>|
        lacks(b, "sni"@) && #[trigger] gives(b, "servername"@, v) ==> n.server_name == Some(v)
    &&& (lacks(b, "sni"@) && lacks(b, "servername"@) ==> n.server_name is None)
    &&& forall|v: Seq<char>| #[trigger]
        gives(b, "type"@, v) ==> n.network == (if text::lowered(v) == "websocket"@ {
            "ws"@
        } else {
            text::lowered(v)
        })
    &&& (lacks(b, "type"@) && lacks(b, "network"@) ==> n.network == "tcp"@)
    &&& forall|v: Seq<char>| #[trigger] gives(b, "fp"@, v) ==> n.client_fingerprint == Some(v)
    &&& (lacks(b, "fp"@) ==> n.client_fingerprint is None)
    &&& forall|v: Seq<char>| #[trigger] gives(b, "path"@, v) ==> n.ws_path == Some(v)
    &&& (lacks(b, "path"@) ==> n.ws_path is None)
    &&& forall|v: Seq<char>| #[trigger] gives(b, "host"@, v) ==> n.ws_host == Some(v)
    &&& (lacks(b, "host"@) ==> n.ws_host is None)
    &&& forall|v: Seq<char>| #[trigger]
        gives(b, "allowinsecure"@, v) ==> n.skip_cert_verify == (v == "1"@ || v == "true"@ || v
            == "True"@ || v == "yes"@)
    &&& (lacks(b, "allowinsecure"@) && lacks(b, "insecure"@) ==> !n.skip_cert_verify)
}

proof fn lemma_query_fields(l: LinkView, n: NodeView, b: Seq<(Seq<char>, Seq<char>)>)
    requires
        with_pairs(l, b),
    ensures
        query_fields_read(with_query(n, query_of(l)), b),
{
    let q = query_of(l);
    assert forall|k: Seq<char>, v: Seq<char>| #[trigger] gives(b, k, v) implies bindings::value_of(
        q,
        k,
    ) == Some(v) by {
        lemma_query_gives(l, b, k, v);
    }
    assert forall|k: Seq<char>| #[trigger] lacks(b, k) implies bindings::value_of(q, k) is None by {
        lemma_query_gives(l, b, k, Seq::empty());
    }
    lemma_tcp_is_lower();
}

proof fn lemma_tcp_is_lower()
    ensures
        text::lowered("tcp"@) == "tcp"@,
        "tcp"@ != "websocket"@,
{
    reveal_strlit("tcp");
    reveal_strlit("websocket");
    assert(text::lowered("tcp"@) =~= "tcp"@);
    assert("tcp"@.len() == 3 && "websocket"@.len() == 9);
}

/// The node of a VLESS link: what stands before the at sign is its id, host and port are
/// those of the link, and port 443 where there is none, the fragment is its name, and
/// the query says the rest: a public key `pbk` makes it a REALITY node with the short
/// id `sid`, else `security` says whether it uses TLS.
pub proof fn law_vless_link_reads_back(l: LinkView, b: Seq<(Seq<char>, Seq<char>)>)
    requires
        with_pairs(l, b),
        l.host is Some,
        link::plain(l.username),
    ensures
        vless_node(l) is Some,
        ({
            let n = vless_node(l)->0;
            &&& n.kind == "vless"@
            &&& n.server == l.host->0
            &&& (l.port is Some && l.port->0 > 0 ==> n.port == l.port->0)
            &&& (l.port is None ==> n.port == 443)
            &&& n.uuid == Some(l.username)
            &&& n.password is None
            &&& query_fields_read(n, b)
            &&& forall|v: Seq<char>| #[trigger] gives(b, "flow"@, v) ==> n.flow == Some(v)
            &&& (lacks(b, "flow"@) ==> n.flow is None)
            &&& forall|v: Seq<char>| #[trigger] gives(b, "sid"@, v) ==> n.reality_short_id == Some(v)
            &&& (lacks(b, "sid"@) ==> n.reality_short_id is None)
            &&& forall|v: Seq<char>| #[trigger]
                gives(b, "pbk"@, v) && v.len() > 0 ==> n.reality_public_key == Some(v)
                    && n.security == Some("reality"@) && n.tls
            &&& (lacks(b, "pbk"@) ==> n.reality_public_key is None)
            &&& forall|v: Seq<char>| #[trigger]
                gives(b, "security"@, v) && lacks(b, "pbk"@) && text::lowered(text::trimmed(v))
                    == "tls"@ ==> n.security == Some("tls"@) && n.tls
            &&& forall|v: Seq<char>| #[trigger]
                gives(b, "security"@, v) && lacks(b, "pbk"@) && text::lowered(text::trimmed(v))
                    == "none"@ ==> n.security == Some("none"@) && !n.tls
        }),
{
    let q = query_of(l);
    let n = vless_node(l)->0;
    link::law_plain_text_is_kept(l.username);
    assert forall|k: Seq<char>, v: Seq<char>| #[trigger] gives(b, k, v) implies bindings::value_of(
        q,
        k,
    ) == Some(v) by {
        lemma_query_gives(l, b, k, v);
    }
    assert forall|k: Seq<char>| #[trigger] lacks(b, k) implies bindings::value_of(q, k) is None by {
        lemma_query_gives(l, b, k, Seq::empty());
    }
    lemma_query_fields(l, n, b);
    assert(with_query(n, q) == n);
    assert("none"@ != "tls"@ && "none"@ != "reality"@) by {
        reveal_strlit("none");
        reveal_strlit("tls");
        reveal_strlit("reality");
        assert("none"@.len() == 4 && "tls"@.len() == 3 && "reality"@.len() == 7);
    }
}

/// The node of a Trojan link: what stands before the at sign is its password, and it
/// uses TLS unless the query says `security=none`.
pub proof fn law_trojan_link_reads_back(l: LinkView, b: Seq<(Seq<char>, Seq<char>)>)
    requires
        with_pairs(l, b),
        l.host is Some,
        link::plain(l.username),
    ensures
        trojan_node(l) is Some,
        ({
            let n = trojan_node(l)->0;
            &&& n.kind == "trojan"@
            &&& n.server == l.host->0
            &&& (l.port is Some && l.port->0 > 0 ==> n.port == l.port->0)
            &&& (l.port is None ==> n.port == 443)
            &&& n.password == Some(l.username)
            &&& n.uuid is None
            &&& query_fields_read(n, b)
            &&& forall|v: Seq<char>| #[trigger]
                gives(b, "security"@, v) ==> n.security == Some(text::lowered(v)) && n.tls == (
                text::lowered(v) != "none"@)
            &&& (lacks(b, "security"@) ==> n.security == Some("tls"@) && n.tls)
        }),
{
    let q = query_of(l);
    let n = trojan_node(l)->0;
    link::law_plain_text_is_kept(l.username);
    assert forall|k: Seq<char>, v: Seq<char>| #[trigger] gives(b, k, v) implies bindings::value_of(
        q,
        k,
    ) == Some(v) by {
        lemma_query_gives(l, b, k, v);
    }
    assert forall|k: Seq<char>| #[trigger] lacks(b, k) implies bindings::value_of(q, k) is None by {
        lemma_query_gives(l, b, k, Seq::empty());
    }
    lemma_query_fields(l, n, b);
    assert(with_query(n, q) == n);
    reveal_strlit("none");
    reveal_strlit("tls");
    assert("none"@.len() == 4 && "tls"@.len() == 3);
    assert(text::lowered("tls"@) =~= "tls"@);
}

/// The name of a link's node is its fragment, or the host where the fragment is missing or
/// empty.
pub proof fn law_fragment_is_the_name(l: LinkView)
    requires
        l.host is Some,
        l.fragment is Some ==> link::plain(l.fragment->0),
    ensures
        ({
            let name = if l.fragment is Some && l.fragment->0.len() > 0 {
                l.fragment->0
            } else {
                l.host->0
            };
            &&& trojan_node(l) is Some && trojan_node(l)->0.name == name
            &&& socks_node(l) is Some && socks_node(l)->0.name == name
            &&& vless_node(l) is Some && (text::trimmed(name).len() > 0 ==> vless_node(l)->0.name
                == name)
        }),
{
    if l.fragment is Some {
        link::law_plain_text_is_kept(l.fragment->0);
    }
}

/// The node of a SOCKS or HTTP link: host, user and password are those of the link; the
/// port is 1080 for SOCKS, 443 for HTTPS and 80 for HTTP where the link has none.
pub proof fn law_proxy_link_reads_back(l: LinkView)
    requires
        l.host is Some,
        link::plain(l.username),
        l.password is Some ==> link::plain(l.password->0),
        l.path == "/"@ || l.path.len() == 0,
    ensures
        ({
            let s = socks_node(l);
            let h = http_node(l);
            let user = if l.username.len() > 0 {
                Some(l.username)
            } else {
                None
            };
            &&& s is Some && h is Some
            &&& s->0.kind == "socks5"@ && h->0.kind == "http"@
            &&& s->0.server == l.host->0 && h->0.server == l.host->0
            &&& s->0.username == user && h->0.username == user
            &&& s->0.password == l.password && h->0.password == l.password
            &&& (l.port is Some ==> s->0.port == l.port->0 && h->0.port == l.port->0)
            &&& (l.port is None ==> s->0.port == 1080)
            &&& (l.port is None && l.scheme == "https"@ ==> h->0.port == 443)
            &&& (l.port is None && l.scheme != "https"@ ==> h->0.port == 80)
            &&& h->0.tls == (l.scheme == "https"@)
            &&& !s->0.tls
        }),
{
    link::law_plain_text_is_kept(l.username);
    if l.password is Some {
        link::law_plain_text_is_kept(l.password->0);
    }
}

/// A link whose path leads somewhere is no HTTP proxy.
pub proof fn law_page_is_no_proxy(l: LinkView)
    requires
        l.path.len() > 1,
    ensures
        http_node(l) is None,
{
    reveal_strlit("/");
}

/// The node of a VMess document: `add` and `port` are the server, `id` the user, `aid` the
/// number of alternative ids, `scy` the cipher, `net` the transport with `path` and
/// `host`, `tls` whether it uses TLS and `sni` with which name, and `ps` the name of
/// the node.
pub proof fn law_vmess_document_reads_back(v: JsonView)
    requires
        json::text_at(v, "add"@) is Some,
        json::text_at(v, "add"@)->0.len() > 0,
        0 < loose_number(v, "port"@) < 0x1_0000,
        loose_number(v, "aid"@) < 0x1_0000,
    ensures
        vmess_node(v) is Some,
        ({
            let n = vmess_node(v)->0;
            let tls = json::text_at(v, "tls"@);
            let net = json::text_at(v, "net"@);
            let ps = json::text_at(v, "ps"@);
            &&& n.kind == "vmess"@
            &&& n.server == json::text_at(v, "add"@)->0
            &&& n.port == loose_number(v, "port"@)
            &&& n.uuid == json::text_at(v, "id"@)
            &&& n.alter_id == loose_number(v, "aid"@)
            &&& n.cipher == json::text_at(v, "scy"@)
            &&& n.ws_path == json::text_at(v, "path"@)
            &&& n.ws_host == json::text_at(v, "host"@)
            &&& n.server_name == json::text_at(v, "sni"@)
            &&& (net is None ==> n.network == "tcp"@)
            &&& (net is Some && text::lowered(net->0) != "websocket"@ ==> n.network
                == text::lowered(net->0))
            &&& (net is Some && text::lowered(net->0) == "websocket"@ ==> n.network == "ws"@)
            &&& (tls == Some("tls"@) ==> n.tls && n.security == Some("tls"@))
            &&& (tls is None ==> !n.tls && n.security == Some("none"@))
            &&& (ps is Some && ps->0.len() > 0 ==> n.name == ps->0)
            &&& (ps is None ==> n.name == n.server)
        }),
{
    lemma_tcp_is_lower();
    reveal_strlit("tls");
    reveal_strlit("none");
    assert("tls"@.len() == 3 && "none"@.len() == 4);
    assert(text::lowered("tls"@).len() == 3 && text::lowered("none"@).len() == 4);
}

/// The node of a Shadowsocks link whose user part is decoded: what stands before the
/// first colon of the user part is the cipher, and what stands behind it the password.
pub proof fn law_ss_link_reads_back(
    method: Seq<char>,
    password: Seq<char>,
    hostport: Seq<char>,
    host: Seq<char>,
    port: u16,
    name: Seq<char>,
)
    requires
        forall|i: int| 0 <= i < method.len() ==> (#[trigger] method[i]) != ':',
        authority(hostport) == Some((host, port as int)),
        link::plain(name),
        name.len() > 0,
    ensures
        ({
            let r = ss_node(
                method + seq![':'] + password,
                hostport,
                Seq::empty(),
                Some(name),
            );
            &&& r is Some
            &&& r->0.kind == "ss"@
            &&& r->0.cipher == Some(method)
            &&& r->0.password == Some(password)
            &&& r->0.server == host
            &&& r->0.port == port
            &&& r->0.name == name
            &&& r->0.uuid is None
        }),
{
    let u = method + seq![':'] + password;
    let n = method.len() as int;
    text::lemma_sep_from(u, seq![':'], 0);
    assert(seq![':'][0] == ':');
    assert(u[n] == ':');
    assert forall|i: int| 0 <= i < n implies !seq![':'].contains(#[trigger] u[i]) by {
        assert(u[i] == method[i]);
    }
    assert(u.take(n) =~= method);
    assert(u.skip(n + 1) =~= password);
    link::law_plain_text_is_kept(name);
}

/// The plugin of a Shadowsocks link is named by the key `plugin`; its value holds the name
/// and, behind a semicolon, the options.
pub proof fn law_ss_plugin_reads_back(
    userinfo: Seq<char>,
    hostport: Seq<char>,
    b: Seq<(Seq<char>, Seq<char>)>,
    fragment: Option<Seq<char>>,
    plugin: Seq<char>,
    options: Seq<char>,
)
    requires
        b.len() > 0,
        link::plain_pairs(b),
        gives(b, "plugin"@, plugin + seq![';'] + options),
        forall|i: int| 0 <= i < plugin.len() ==> (#[trigger] plugin[i]) != ';',
        ss_node(userinfo, hostport, link::query_text(b), fragment) is Some,
    ensures
        ({
            let n = ss_node(userinfo, hostport, link::query_text(b), fragment)->0;
            n.plugin == Some(plugin) && n.plugin_opts == Some(options)
        }),
{
    let l = LinkView {
        scheme: Seq::empty(),
        username: Seq::empty(),
        password: None,
        host: None,
        port: None,
        path: Seq::empty(),
        query: Some(link::query_text(b)),
        fragment: None,
    };
    let v = plugin + seq![';'] + options;
    lemma_query_gives(l, b, "plugin"@, v);
    let n = plugin.len() as int;
    text::lemma_sep_from(v, seq![';'], 0);
    assert(seq![';'][0] == ';');
    assert(v[n] == ';');
    assert forall|i: int| 0 <= i < n implies !seq![';'].contains(#[trigger] v[i]) by {
        assert(v[i] == plugin[i]);
    }
    assert(v.take(n) =~= plugin);
    assert(v.skip(n + 1) =~= options);
}

/// The scheme of a link, in letters of any case, says which kind of link it is.
pub proof fn law_scheme_chooses_kind(p: Seq<char>, rest: Seq<char>)
    requires
        text::trimmed(p + rest) == p + rest,
    ensures
        text::lowered(p) == "vless://"@ ==> link_node(p + rest) == vless_of(
            link::url_parts(p + rest),
        ),
        text::lowered(p) == "trojan://"@ ==> link_node(p + rest) == trojan_of(
            link::url_parts(p + rest),
        ),
        text::lowered(p) == "ss://"@ ==> link_node(p + rest) == ss_link_node(p + rest),
        text::lowered(p) == "vmess://"@ ==> link_node(p + rest) == vmess_link_node(p + rest),
        text::lowered(p) == "socks://"@ || text::lowered(p) == "socks5://"@ ==> link_node(p + rest)
            == socks_of(link::url_parts(p + rest)),
        text::lowered(p) == "http://"@ || text::lowered(p) == "https://"@ ==> link_node(p + rest)
            == http_of(link::url_parts(p + rest)),
{
    reveal_strlit("vless://");
    reveal_strlit("trojan://");
    reveal_strlit("ss://");
    reveal_strlit("vmess://");
    reveal_strlit("socks://");
    reveal_strlit("socks5://");
    reveal_strlit("http://");
    reveal_strlit("https://");
    let s = p + rest;
    let low = text::lowered(s);
    let n = p.len() as int;
    assert(low.subrange(0, n) =~= text::lowered(p));
    lemma_not_start(low, "vless://"@);
    lemma_not_start(low, "trojan://"@);
    lemma_not_start(low, "ss://"@);
    lemma_not_start(low, "vmess://"@);
    lemma_not_start(low, "socks://"@);
    lemma_not_start(low, "socks5://"@);
    lemma_not_start(low, "http://"@);
    lemma_not_start(low, "https://"@);
    lemma_not_start(low, text::lowered(p));
    assert("vless://"@[0] == 'v' && "vless://"@[1] == 'l');
    assert("trojan://"@[0] == 't');
    assert("ss://"@[0] == 's' && "ss://"@[1] == 's');
    assert("vmess://"@[0] == 'v' && "vmess://"@[1] == 'm');
    assert("socks://"@[0] == 's' && "socks://"@[1] == 'o');
    assert("socks5://"@[0] == 's' && "socks5://"@[1] == 'o');
    assert("http://"@[0] == 'h' && "https://"@[0] == 'h');
}

proof fn lemma_not_start(s: Seq<char>, pat: Seq<char>)
    ensures
        text::starts(s, pat) ==> forall|i: int| 0 <= i < pat.len() ==> s[i] == #[trigger] pat[i],
        (pat.len() <= s.len() && s.subrange(0, pat.len() as int) == pat) ==> text::starts(s, pat),
{
    if text::starts(s, pat) {
        assert forall|i: int| 0 <= i < pat.len() implies s[i] == #[trigger] pat[i] by {
            assert(s.subrange(0, 0 + pat.len() as int)[i] == pat[i]);
        }
    }
}

/// A host and a port in decimal with a colon between them read back, and so does an IPv6
/// address in square brackets before the colon.
pub proof fn law_authority_reads_back(host: Seq<char>, port: u16)
    requires
        host.len() > 0,
        !text::is_white(host[0]),
        !host.contains(']'),
    ensures
        host[0] != '[' ==> authority(host + seq![':'] + text::dec(port as nat)) == Some(
            (host, port as int),
        ),
        authority(seq!['['] + host + seq![']', ':'] + text::dec(port as nat)) == Some(
            (host, port as int),
        ),
{
    reveal_strlit("[");
    reveal_strlit(":");
    let d = text::dec(port as nat);
    text::law_number_reads_back(port as nat, 0xffff);
    text::law_dec_reads_back(port as nat);
    let e = Seq::<char>::empty();
    assert(text::is_digit(d.last()));
    assert(!d.contains(':')) by {
        assert forall|i: int| 0 <= i < d.len() implies d[i] != ':' by {
            assert(text::is_digit(d[i]));
        }
    }
    let s = host + seq![':'] + d;
    assert(s.last() == d.last());
    text::law_trim(e, s, e);
    text::law_cut(host, ':', d);
    let t = seq!['['] + host + seq![']', ':'] + d;
    assert(t.last() == d.last());
    text::law_trim(e, t, e);
    let b = "["@;
    assert(t.subrange(0, 1) =~= b);
    assert(text::starts(t, b));
    let u = host + seq![']'] + (seq![':'] + d);
    assert(t.skip(1) =~= u);
    text::law_cut(host, ']', seq![':'] + d);
    let c = ":"@;
    let v = seq![':'] + d;
    assert(v.subrange(0, 1) =~= c);
    assert(text::starts(v, c));
    assert(v.skip(1) =~= d);
    lemma_not_start(d, c);
    assert(c[0] == ':');
    assert(!text::starts(d, c));
    assert(text::without_prefixes(d, c) == d);
    assert(text::without_prefixes(v, c) == text::without_prefixes(v.skip(1), c));
    if host[0] != '[' {
        lemma_not_start(s, b);
        assert(b[0] == '[');
        assert(s[0] == host[0]);
        assert(!text::starts(s, b));
    }
}

/// A text of visible ASCII characters without any that part a link.
pub open spec fn is_word(s: Seq<char>) -> bool {
    forall|i: int|
        0 <= i < s.len() ==> {
            &&& '!' <= (#[trigger] s[i]) <= '~'
            &&& s[i] != '#'
            &&& s[i] != '%'
            &&& s[i] != '&'
            &&& s[i] != '/'
            &&& s[i] != ':'
            &&& s[i] != '?'
            &&& s[i] != '@'
            &&& s[i] != '['
            &&& s[i] != ']'
        }
}

/// A Shadowsocks link that shows its user part: the cipher and the password stand between
/// the scheme and the at sign, host and port behind it, and the name behind the number
/// sign.
pub proof fn law_ss_text_reads_back(
    method: Seq<char>,
    password: Seq<char>,
    host: Seq<char>,
    port: u16,
    name: Seq<char>,
)
    requires
        is_word(method),
        is_word(password),
        is_word(host),
        is_word(name),
        host.len() > 0,
        name.len() > 0,
    ensures
        ({
            let body = method + seq![':'] + password + seq!['@'] + (host + seq![':'] + text::dec(
                port as nat,
            ));
            let r = ss_link_node("ss://"@ + body + seq!['#'] + name);
            &&& r is Some
            &&& r->0.kind == "ss"@
            &&& r->0.cipher == Some(method)
            &&& r->0.password == Some(password)
            &&& r->0.server == host
            &&& r->0.port == port
            &&& r->0.name == name
        }),
{
    reveal_strlit("ss://");
    reveal_strlit("SS://");
    let d = text::dec(port as nat);
    text::law_dec_reads_back(port as nat);
    let left = method + seq![':'] + password;
    let right = host + seq![':'] + d;
    let body = left + seq!['@'] + right;
    let rest = "ss://"@ + body;
    lemma_parts_of(method, ':', password);
    lemma_digits_are_word(port);
    lemma_parts_of(host, ':', d);
    assert(!rest.contains('#')) by {
        assert forall|i: int| 0 <= i < rest.len() implies rest[i] != '#' by {
            if i >= 5 {
                let j = i - 5;
                assert(rest[i] == body[j]);
                if j < left.len() {
                    assert(body[j] == left[j]);
                } else if j > left.len() {
                    assert(body[j] == right[j - left.len() - 1]);
                }
            }
        }
    }
    text::law_cut(rest, '#', name);
    lemma_scheme_removed(left, right);
    assert(!right.contains('@')) by {
        assert forall|i: int| 0 <= i < right.len() implies right[i] != '@' by {}
    }
    text::law_cut(left, '@', right);
    assert(!right.contains('?')) by {
        assert forall|i: int| 0 <= i < right.len() implies right[i] != '?' by {}
    }
    text::law_cut(right, '?', Seq::empty());
    reveal_strlit(":");
    let n = method.len() as int;
    assert(left.subrange(n, n + 1) =~= ":"@);
    text::law_first_is_found(left, ":"@, n);
    assert(link::plain(left));
    link::law_plain_text_is_kept(left);
    assert(!host.contains(']')) by {
        assert forall|i: int| 0 <= i < host.len() implies host[i] != ']' by {}
    }
    assert(host[0] != '[');
    law_authority_reads_back(host, port);
    law_ss_link_reads_back(method, password, right, host, port, name);
}

proof fn lemma_digits_are_word(port: u16)
    ensures
        is_word(text::dec(port as nat)),
{
    let d = text::dec(port as nat);
    text::law_dec_reads_back(port as nat);
    assert forall|i: int| 0 <= i < d.len() implies '0' <= #[trigger] d[i] <= '9' by {
        assert(text::is_digit(d[i]));
    }
}

proof fn lemma_parts_of(a: Seq<char>, c: char, b: Seq<char>)
    requires
        is_word(a),
        is_word(b),
        c == ':',
    ensures
        ({
            let s = a + seq![c] + b;
            forall|i: int|
                0 <= i < s.len() ==> {
                    &&& '!' <= (#[trigger] s[i]) <= '~'
                    &&& s[i] != '#'
                    &&& s[i] != '%'
                    &&& s[i] != '&'
                    &&& s[i] != '/'
                    &&& s[i] != '?'
                    &&& s[i] != '@'
                }
        }),
{
    let s = a + seq![c] + b;
    assert forall|i: int| 0 <= i < s.len() implies {
        &&& '!' <= (#[trigger] s[i]) <= '~'
        &&& s[i] != '#'
        &&& s[i] != '%'
        &&& s[i] != '&'
        &&& s[i] != '/'
        &&& s[i] != '?'
        &&& s[i] != '@'
    } by {
        if i < a.len() {
            assert(s[i] == a[i]);
        } else if i > a.len() {
            assert(s[i] == b[i - a.len() - 1]);
        }
    }
}

proof fn lemma_scheme_removed(left: Seq<char>, right: Seq<char>)
    requires
        forall|i: int| 0 <= i < left.len() ==> (#[trigger] left[i]) != '/',
        forall|i: int| 0 <= i < right.len() ==> (#[trigger] right[i]) != '/',
    ensures
        ({
            let body = left + seq!['@'] + right;
            text::without_prefixes(text::without_prefixes("ss://"@ + body, "ss://"@), "SS://"@)
                == body
        }),
{
    reveal_strlit("ss://");
    reveal_strlit("SS://");
    let body = left + seq!['@'] + right;
    let p = "ss://"@;
    let q = "SS://"@;
    let s = p + body;
    assert forall|i: int| 0 <= i < body.len() implies (#[trigger] body[i]) != '/' by {
        if i < left.len() {
            assert(body[i] == left[i]);
        } else if i > left.len() {
            assert(body[i] == right[i - left.len() - 1]);
        }
    }
    assert(p[3] == '/' && q[3] == '/');
    lemma_not_start(body, p);
    lemma_not_start(body, q);
    assert(!text::starts(body, p) && !text::starts(body, q)) by {
        if text::starts(body, p) || text::starts(body, q) {
            assert(body[3] == '/');
        }
    }
    assert(s.subrange(0, 5) =~= p);
    assert(text::starts(s, p));
    assert(s.skip(5) =~= body);
    assert(text::without_prefixes(body, p) == body);
    assert(text::without_prefixes(body, q) == body);
    assert(text::without_prefixes(s, p) == text::without_prefixes(s.skip(5), p));
}

/// A Base64 text in the alphabet for addresses is read as the same text in the standard
/// one: a hyphen is a plus sign and an underscore a slash; and it is padded with equals
/// signs to a multiple of four.
pub proof fn law_alphabet_and_padding(s: Seq<char>)
    requires
        forall|i: int|
            0 <= i < s.len() ==> (#[trigger] s[i]) <= '\u{7f}' && s[i] != '-' && s[i] != '_',
    ensures
        standard_alphabet(seq!['-'] + s) == seq!['+'] + s,
        standard_alphabet(seq!['_'] + s) == seq!['/'] + s,
        standard_alphabet(s) == s,
        s.len() % 4 == 0 ==> padded(s) == s,
        s.len() % 4 == 1 ==> padded(s) == s + seq!['=', '=', '='],
        s.len() % 4 == 2 ==> padded(s) == s + seq!['=', '='],
        s.len() % 4 == 3 ==> padded(s) == s + seq!['='],
{
    reveal_strlit("-");
    reveal_strlit("_");
    reveal_strlit("+");
    reveal_strlit("/");
    codec::lemma_ascii_length(s);
    lemma_kept_without(s, '-', "-"@, "+"@);
    lemma_kept_without(s, '_', "_"@, "/"@);
    let a = seq!['-'] + s;
    let b = seq!['_'] + s;
    let c = seq!['+'] + s;
    assert(a.subrange(0, 1) =~= "-"@);
    assert(text::starts(a, "-"@));
    assert(a.skip(1) =~= s && b.skip(1) =~= s && c.skip(1) =~= s);
    assert("+"@ + s =~= c);
    assert(text::replaced(a, "-"@, "+"@) == c);
    lemma_kept_without(c, '_', "_"@, "/"@);
    lemma_kept_without(b, '-', "-"@, "+"@);
    assert(b.subrange(0, 1) =~= "_"@);
    assert(text::starts(b, "_"@));
    assert("/"@ + s =~= seq!['/'] + s);
    assert(padding(1) =~= seq!['=']);
    assert(padding(2) =~= seq!['=', '=']);
    assert(padding(3) =~= seq!['=', '=', '=']);
}

proof fn lemma_kept_without(s: Seq<char>, c: char, pat: Seq<char>, by: Seq<char>)
    requires
        pat.len() == 1,
        pat[0] == c,
        forall|i: int| 0 <= i < s.len() ==> (#[trigger] s[i]) != c,
    ensures
        text::replaced(s, pat, by) == s,
    decreases s.len(),
{
    if s.len() > 0 {
        assert(!text::starts(s, pat)) by {
            if text::starts(s, pat) {
                assert(s.subrange(0, 1)[0] == s[0]);
            }
        }
        lemma_kept_without(s.skip(1), c, pat, by);
        assert(seq![s[0]] + s.skip(1) =~= s);
    }
}

} // verus!
