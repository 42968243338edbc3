//! How a connection through a server is built up: its layers, in order.

use vstd::prelude::*;

use crate::codec;
use crate::proxynet::crypto;
use crate::proxynet::error;
use crate::proxynet::error::{ProxyError, ProxyErrorCode};
use crate::proxynet::http_connect;
use crate::proxynet::options;
use crate::proxynet::options::{
    EdgeOptions, OutboundKind, SsOptions, TrojanOptions, VlessOptions, VlessSecurity, VmessOptions,
};
use crate::proxynet::reality::stream::{RealityTlsStream, TlsView};
use crate::proxynet::reality::record::RecView;
use crate::proxynet::socks::SocksDial;
use crate::proxynet::ss;
use crate::proxynet::ss::SsSession;
use crate::proxynet::transport;
use crate::proxynet::transport::TransportKind;
use crate::proxynet::trojan;
use crate::proxynet::vision::{VisionStream, VISION_FLOW};
use crate::proxynet::vless;
use crate::proxynet::vless::{AnswerView, VlessResponseStream};
use crate::proxynet::vmess;
use crate::proxynet::vmess::stream::VmessAuthStream;
use crate::text;

verus! {

// ---- layers ----
/// What encrypts a connection.
#[derive(Debug)]
pub enum Security {
    Plain,
    Tls { name: String, insecure: bool, alpn: Vec<String> },
    Reality { name: String, public_key: String, short_id: Option<String>, alpn: Vec<String> },
}

pub enum SecurityView {
    Plain,
    Tls { name: Seq<char>, insecure: bool, alpn: Seq<Seq<char>> },
    Reality {
        name: Seq<char>,
        public_key: Seq<char>,
        short_id: Option<Seq<char>>,
        alpn: Seq<Seq<char>>,
    },
}

impl View for Security {
    type V = SecurityView;

    open spec fn view(&self) -> SecurityView {
        match self {
            Security::Plain => SecurityView::Plain,
            Security::Tls { name, insecure, alpn } => SecurityView::Tls {
                name: name@,
                insecure: *insecure,
                alpn: text::strings(alpn@),
            },
            Security::Reality { name, public_key, short_id, alpn } => SecurityView::Reality {
                name: name@,
                public_key: public_key@,
                short_id: text::opt_view(*short_id),
                alpn: text::strings(alpn@),
            },
        }
    }
}

/// The layers over a TCP connection: the encryption, and the transport with the
/// path and the host that an upgrade asks for.
#[derive(Debug)]
pub struct Layers {
    pub security: Security,
    pub transport: TransportKind,
    pub path: String,
    pub host: String,
}

pub struct LayersView {
    pub security: SecurityView,
    pub transport: TransportKind,
    pub path: Seq<char>,
    pub host: Seq<char>,
}

impl View for Layers {
    type V = LayersView;

    open spec fn view(&self) -> LayersView {
        LayersView {
            security: self.security@,
            transport: self.transport,
            path: self.path@,
            host: self.host@,
        }
    }
}

/// The protocols that are offered where none are named.
pub open spec fn default_alpn() -> Seq<Seq<char>> {
    seq!["h2"@, "http/1.1"@]
}

/// The encryption that options ask for.
pub open spec fn vless_security(o: VlessOptions) -> SecurityView {
    let name = options::tls_name(text::opt_view(o.sni), text::opt_view(o.host_header), o.host@);
    match o.security {
        VlessSecurity::Plain => SecurityView::Plain,
        VlessSecurity::Tls => SecurityView::Tls {
            name,
            insecure: o.allow_insecure,
            alpn: text::strings(o.alpn@),
        },
        VlessSecurity::Reality => SecurityView::Reality {
            name,
            public_key: o.reality_public_key->0@,
            short_id: text::opt_view(o.reality_short_id),
            alpn: if o.alpn@.len() == 0 {
                default_alpn()
            } else {
                text::strings(o.alpn@)
            },
        },
    }
}

/// Why options are refused, if they are.
pub open spec fn vless_fault(o: VlessOptions) -> Option<(ProxyErrorCode, Seq<char>)> {
    if transport::transport_of(o.transport@) == TransportKind::Unsupported {
        Some(
            (
                ProxyErrorCode::TransportUpgradeFailed,
                "VLESS transport '"@ + o.transport@ + "' is not supported"@,
            ),
        )
    } else if o.security == VlessSecurity::Reality && o.reality_public_key is None {
        Some((ProxyErrorCode::AuthRequired, "VLESS REALITY needs pbk"@))
    } else if o.flow is Some && o.flow->0@.len() > 0 && !text::same_nocase(
        o.flow->0@,
        VISION_FLOW@,
    ) {
        Some(
            (ProxyErrorCode::InvalidResponse, "VLESS flow '"@ + o.flow->0@ + "' is not supported"@),
        )
    } else {
        None
    }
}

pub open spec fn vless_layers(o: VlessOptions) -> LayersView {
    LayersView {
        security: vless_security(o),
        transport: transport::transport_of(o.transport@),
        path: transport::rooted(text::opt_view(o.path)),
        host: transport::host_header_of(
            text::opt_view(o.host_header),
            text::opt_view(o.sni),
            o.host@,
        ),
    }
}

fn quoted(code: ProxyErrorCode, a: &str, what: &str, b: &str) -> (r: ProxyError)
    ensures
        r.says(code, a@ + what@ + b@),
{
    let mut m = text::chars_of(a);
    text::append_str(&mut m, what);
    text::append_str(&mut m, b);
    error::error_of(code, &m)
}

fn copy_strings(v: &Vec<String>) -> (r: Vec<String>)
    ensures
        text::strings(r@) == text::strings(v@),
{
    let mut r: Vec<String> = Vec::new();
    let mut i: usize = 0;
    while i < v.len()
        invariant
            i <= v@.len(),
            r@.len() == i,
            forall|j: int| 0 <= j < i ==> (#[trigger] r@[j])@ == v@[j]@,
        decreases v@.len() - i,
    {
        r.push(v[i].as_str().to_owned());
        i += 1;
    }
    assert(text::strings(r@) =~= text::strings(v@));
    r
}

fn opt_ref<'a>(o: &'a Option<String>) -> (r: Option<&'a str>)
    ensures
        text::opt_str(r) == text::opt_view(*o),
{
    match o {
        Some(s) => Some(s.as_str()),
        None => None,
    }
}

/// The layers of a VLESS connection.
pub fn dial_vless(o: &VlessOptions) -> (r: Result<Layers, ProxyError>)
    ensures
        match vless_fault(*o) {
            Some((c, m)) => r is Err && r->Err_0.says(c, m),
            None => r is Ok && r->Ok_0@ == vless_layers(*o),
        },
{
    let kind: TransportKind = transport::resolve_transport(o.transport.as_str());
    if kind == TransportKind::Unsupported {
        return Err(
            quoted(
                ProxyErrorCode::TransportUpgradeFailed,
                "VLESS transport '",
                o.transport.as_str(),
                "' is not supported",
            ),
        );
    }
    if o.security == VlessSecurity::Reality && o.reality_public_key.is_none() {
        return Err(ProxyError::new(ProxyErrorCode::AuthRequired, "VLESS REALITY needs pbk"));
    }
    if let Some(f) = &o.flow {
        let c = text::chars_of(f.as_str());
        if c.len() > 0 && !text::is_nocase(c.as_slice(), VISION_FLOW) {
            return Err(
                quoted(
                    ProxyErrorCode::InvalidResponse,
                    "VLESS flow '",
                    f.as_str(),
                    "' is not supported",
                ),
            );
        }
    }
    let security = match o.security {
        VlessSecurity::Plain => Security::Plain,
        VlessSecurity::Tls => Security::Tls {
            name: o.sni_or_host().to_owned(),
            insecure: o.allow_insecure,
            alpn: copy_strings(&o.alpn),
        },
        VlessSecurity::Reality => {
            let public_key = match &o.reality_public_key {
                Some(k) => k.as_str().to_owned(),
                None => String::new(),
            };
            let short_id = match &o.reality_short_id {
                Some(s) => Some(s.as_str().to_owned()),
                None => None,
            };
            let alpn = if o.alpn.len() == 0 {
                let mut d: Vec<String> = Vec::new();
                d.push("h2".to_owned());
                d.push("http/1.1".to_owned());
                assert(text::strings(d@) =~= default_alpn());
                d
            } else {
                copy_strings(&o.alpn)
            };
            Security::Reality { name: o.sni_or_host().to_owned(), public_key, short_id, alpn }
        },
    };
    let host = transport::resolve_host_header(
        opt_ref(&o.host_header),
        opt_ref(&o.sni),
        o.host.as_str(),
    );
    let path = transport::normalize_path(opt_ref(&o.path));
    Ok(Layers { security, transport: kind, path, host })
}

/// Why options are refused, if they are.
pub open spec fn trojan_fault(o: TrojanOptions) -> Option<(ProxyErrorCode, Seq<char>)> {
    if transport::transport_of(o.transport@) == TransportKind::Unsupported {
        Some(
            (
                ProxyErrorCode::TransportUpgradeFailed,
                "Trojan transport '"@ + o.transport@ + "' is not supported"@,
            ),
        )
    } else {
        None
    }
}

pub open spec fn trojan_layers(o: TrojanOptions) -> LayersView {
    LayersView {
        security: SecurityView::Tls {
            name: options::tls_name(
                text::opt_view(o.sni),
                text::opt_view(o.host_header),
                o.host@,
            ),
            insecure: o.allow_insecure,
            alpn: text::strings(o.alpn@),
        },
        transport: transport::transport_of(o.transport@),
        path: transport::rooted(text::opt_view(o.path)),
        host: transport::host_header_of(
            text::opt_view(o.host_header),
            text::opt_view(o.sni),
            o.host@,
        ),
    }
}

/// The layers of a Trojan connection, which is always encrypted.
pub fn dial_trojan(o: &TrojanOptions) -> (r: Result<Layers, ProxyError>)
    ensures
        match trojan_fault(*o) {
            Some((c, m)) => r is Err && r->Err_0.says(c, m),
            None => r is Ok && r->Ok_0@ == trojan_layers(*o),
        },
{
    let kind: TransportKind = transport::resolve_transport(o.transport.as_str());
    if kind == TransportKind::Unsupported {
        return Err(
            quoted(
                ProxyErrorCode::TransportUpgradeFailed,
                "Trojan transport '",
                o.transport.as_str(),
                "' is not supported",
            ),
        );
    }
    let host = transport::resolve_host_header(
        opt_ref(&o.host_header),
        opt_ref(&o.sni),
        o.host.as_str(),
    );
    let path = transport::normalize_path(opt_ref(&o.path));
    let security = Security::Tls {
        name: o.sni_or_host().to_owned(),
        insecure: o.allow_insecure,
        alpn: copy_strings(&o.alpn),
    };
    Ok(Layers { security, transport: kind, path, host })
}

/// The layers of a connection that is encrypted only where that is asked for.
pub open spec fn optional_tls(
    tls: bool,
    sni: Option<Seq<char>>,
    header: Option<Seq<char>>,
    host: Seq<char>,
    alpn: Seq<Seq<char>>,
    insecure: bool,
    transport: TransportKind,
    path: Option<Seq<char>>,
) -> LayersView {
    LayersView {
        security: if tls {
            SecurityView::Tls { name: options::tls_name(sni, header, host), insecure, alpn }
        } else {
            SecurityView::Plain
        },
        transport,
        path: transport::rooted(path),
        host: transport::host_header_of(header, sni, host),
    }
}

/// Why options are refused, if they are.
pub open spec fn ss_fault(o: SsOptions) -> Option<(ProxyErrorCode, Seq<char>)> {
    if transport::transport_of(o.transport@) == TransportKind::Unsupported {
        Some(
            (
                ProxyErrorCode::TransportUpgradeFailed,
                "Shadowsocks transport '"@ + o.transport@ + "' is not supported"@,
            ),
        )
    } else {
        None
    }
}

pub open spec fn ss_layers(o: SsOptions) -> LayersView {
    optional_tls(
        o.tls,
        text::opt_view(o.sni),
        text::opt_view(o.host_header),
        o.host@,
        text::strings(o.alpn@),
        o.allow_insecure,
        transport::transport_of(o.transport@),
        text::opt_view(o.path),
    )
}

/// The layers below a Shadowsocks connection, and below its plugin.
pub fn layers_of_ss(o: &SsOptions) -> (r: Result<Layers, ProxyError>)
    ensures
        match ss_fault(*o) {
            Some((c, m)) => r is Err && r->Err_0.says(c, m),
            None => r is Ok && r->Ok_0@ == ss_layers(*o),
        },
{
    let kind: TransportKind = transport::resolve_transport(o.transport.as_str());
    if kind == TransportKind::Unsupported {
        return Err(
            quoted(
                ProxyErrorCode::TransportUpgradeFailed,
                "Shadowsocks transport '",
                o.transport.as_str(),
                "' is not supported",
            ),
        );
    }
    let host = transport::resolve_host_header(
        opt_ref(&o.host_header),
        opt_ref(&o.sni),
        o.host.as_str(),
    );
    let path = transport::normalize_path(opt_ref(&o.path));
    let security = if o.tls {
        Security::Tls {
            name: o.sni_or_host().to_owned(),
            insecure: o.allow_insecure,
            alpn: copy_strings(&o.alpn),
        }
    } else {
        Security::Plain
    };
    Ok(Layers { security, transport: kind, path, host })
}

/// Why options are refused, if they are.
pub open spec fn vmess_fault(o: VmessOptions) -> Option<(ProxyErrorCode, Seq<char>)> {
    if transport::transport_of(o.transport@) == TransportKind::Unsupported {
        Some(
            (
                ProxyErrorCode::TransportUpgradeFailed,
                "VMess transport '"@ + o.transport@ + "' is not supported"@,
            ),
        )
    } else {
        None
    }
}

pub open spec fn vmess_layers(o: VmessOptions) -> LayersView {
    optional_tls(
        o.tls,
        text::opt_view(o.sni),
        text::opt_view(o.host_header),
        o.host@,
        text::strings(o.alpn@),
        o.allow_insecure,
        transport::transport_of(o.transport@),
        text::opt_view(o.path),
    )
}

/// The layers below a VMess connection.
pub fn layers_of_vmess(o: &VmessOptions) -> (r: Result<Layers, ProxyError>)
    ensures
        match vmess_fault(*o) {
            Some((c, m)) => r is Err && r->Err_0.says(c, m),
            None => r is Ok && r->Ok_0@ == vmess_layers(*o),
        },
{
    let kind: TransportKind = transport::resolve_transport(o.transport.as_str());
    if kind == TransportKind::Unsupported {
        return Err(
            quoted(
                ProxyErrorCode::TransportUpgradeFailed,
                "VMess transport '",
                o.transport.as_str(),
                "' is not supported",
            ),
        );
    }
    let host = transport::resolve_host_header(
        opt_ref(&o.host_header),
        opt_ref(&o.sni),
        o.host.as_str(),
    );
    let path = transport::normalize_path(opt_ref(&o.path));
    let security = if o.tls {
        Security::Tls {
            name: o.sni_or_host().to_owned(),
            insecure: o.allow_insecure,
            alpn: copy_strings(&o.alpn),
        }
    } else {
        Security::Plain
    };
    Ok(Layers { security, transport: kind, path, host })
}

pub open spec fn edge_layers(e: EdgeOptions) -> LayersView {
    optional_tls(
        e.tls,
        text::opt_view(e.sni),
        text::opt_view(e.host_header),
        e.host@,
        Seq::empty(),
        e.allow_insecure,
        TransportKind::RawTcp,
        None,
    )
}

/// The layers below a SOCKS5 or an HTTP proxy: plain TCP, or TLS over it.
pub fn layers_of_edge(e: &EdgeOptions) -> (r: Layers)
    ensures
        r@ == edge_layers(*e),
{
    let host = transport::resolve_host_header(
        opt_ref(&e.host_header),
        opt_ref(&e.sni),
        e.host.as_str(),
    );
    let path = transport::normalize_path(None);
    let security = if e.tls {
        let alpn: Vec<String> = Vec::new();
        assert(text::strings(alpn@) =~= Seq::empty());
        Security::Tls {
            name: e.sni_or_host().to_owned(),
            insecure: e.allow_insecure,
            alpn,
        }
    } else {
        Security::Plain
    };
    Layers { security, transport: TransportKind::RawTcp, path, host }
}

/// What a node of a type is dialled with, or why it is not. The case of the
/// letters of the type does not count. To a SOCKS5 or an HTTP proxy there is always a
/// way: their own options name no more than a user.
pub open spec fn dial_outcome(
    node_type: Seq<char>,
    outbound: Option<OutboundKind>,
    edge: EdgeOptions,
) -> Result<LayersView, (ProxyErrorCode, Seq<char>)> {
    let t = text::lowered(node_type);
    if t == "vless"@ {
        match outbound {
            Some(OutboundKind::Vless(o)) => match vless_fault(o) {
                Some(f) => Err(f),
                None => Ok(vless_layers(o)),
            },
            _ => Err((ProxyErrorCode::AuthRequired, "VLESS node missing uuid"@)),
        }
    } else if t == "trojan"@ {
        match outbound {
            Some(OutboundKind::Trojan(o)) => match trojan_fault(o) {
                Some(f) => Err(f),
                None => Ok(trojan_layers(o)),
            },
            _ => Err((ProxyErrorCode::AuthRequired, "Trojan node missing password"@)),
        }
    } else if t == "ss"@ {
        match outbound {
            Some(OutboundKind::Shadowsocks(o)) => match ss_fault(o) {
                Some(f) => Err(f),
                None => Ok(ss_layers(o)),
            },
            _ => Err((ProxyErrorCode::AuthRequired, "Shadowsocks node missing password"@)),
        }
    } else if t == "vmess"@ {
        match outbound {
            Some(OutboundKind::Vmess(o)) => match vmess_fault(o) {
                Some(f) => Err(f),
                None => Ok(vmess_layers(o)),
            },
            _ => Err((ProxyErrorCode::AuthRequired, "VMess node missing uuid"@)),
        }
    } else if t == "socks5"@ || t == "http"@ {
        Ok(edge_layers(edge))
    } else {
        Err((ProxyErrorCode::InvalidResponse, "Outbound type "@ + t))
    }
}

/// The layers of a connection through a node.
pub fn dial(node_type: &str, outbound: Option<&OutboundKind>, edge: &EdgeOptions) -> (r: Result<
    Layers,
    ProxyError,
>)
    ensures
        match dial_outcome(
            node_type@,
            match outbound {
                Some(o) => Some(*o),
                None => None,
            },
            *edge,
        ) {
            Ok(l) => r is Ok && r->Ok_0@ == l,
            Err((c, m)) => r is Err && r->Err_0.says(c, m),
        },
{
    let c = text::chars_of(node_type);
    let t = text::lower(c.as_slice());
    if text::is(t.as_slice(), "vless") {
        return match outbound {
            Some(OutboundKind::Vless(o)) => dial_vless(o),
            _ => Err(ProxyError::new(ProxyErrorCode::AuthRequired, "VLESS node missing uuid")),
        };
    }
    if text::is(t.as_slice(), "trojan") {
        return match outbound {
            Some(OutboundKind::Trojan(o)) => dial_trojan(o),
            _ => Err(
                ProxyError::new(ProxyErrorCode::AuthRequired, "Trojan node missing password"),
            ),
        };
    }
    if text::is(t.as_slice(), "ss") {
        return match outbound {
            Some(OutboundKind::Shadowsocks(o)) => layers_of_ss(o),
            _ => Err(
                ProxyError::new(ProxyErrorCode::AuthRequired, "Shadowsocks node missing password"),
            ),
        };
    }
    if text::is(t.as_slice(), "vmess") {
        return match outbound {
            Some(OutboundKind::Vmess(o)) => layers_of_vmess(o),
            _ => Err(ProxyError::new(ProxyErrorCode::AuthRequired, "VMess node missing uuid")),
        };
    }
    if text::is(t.as_slice(), "socks5") || text::is(t.as_slice(), "http") {
        return Ok(layers_of_edge(edge));
    }
    let mut m = text::chars_of("Outbound type ");
    text::append(&mut m, t.as_slice());
    Err(error::error_of(ProxyErrorCode::InvalidResponse, &m))
}

/// The error of a dial that takes too long.
pub fn dial_timed_out() -> (r: ProxyError)
    ensures
        r.says(ProxyErrorCode::Timeout, "proxy dial timed out"@),
{
    ProxyError::new(ProxyErrorCode::Timeout, "proxy dial timed out")
}

/// The error of a name that TLS cannot ask for.
pub fn bad_sni(sni: &str) -> (r: ProxyError)
    ensures
        r.says(ProxyErrorCode::InvalidResponse, "bad SNI "@ + sni@),
{
    let mut m = text::chars_of("bad SNI ");
    text::append_str(&mut m, sni);
    error::error_of(ProxyErrorCode::InvalidResponse, &m)
}

/// The names of protocols, each with a zero behind it.
pub open spec fn alpn_key_of(alpn: Seq<Seq<char>>) -> Seq<u8>
    decreases alpn.len(),
{
    if alpn.len() == 0 {
        Seq::empty()
    } else {
        alpn_key_of(alpn.drop_last()) + vstd::utf8::encode_utf8(alpn.last()) + seq![0u8]
    }
}

/// By what a TLS setup is found again, beside whether it checks certificates.
pub fn alpn_key(alpn: &[String]) -> (r: Vec<u8>)
    ensures
        r@ == alpn_key_of(text::strings(alpn@)),
{
    let mut r: Vec<u8> = Vec::new();
    let mut i: usize = 0;
    assert(text::strings(alpn@).take(0).len() == 0);
    while i < alpn.len()
        invariant
            i <= alpn@.len(),
            r@ == alpn_key_of(text::strings(alpn@).take(i as int)),
        decreases alpn@.len() - i,
    {
        let ghost t = text::strings(alpn@).take(i + 1);
        assert(t.drop_last() =~= text::strings(alpn@).take(i as int));
        assert(t.last() == alpn@[i as int]@);
        let b = codec::bytes_of(alpn[i].as_str());
        codec::append(&mut r, b.as_slice());
        let ghost g = r@;
        r.push(0);
        assert(r@ =~= g + seq![0u8]);
        i += 1;
    }
    assert(text::strings(alpn@).take(i as int) =~= text::strings(alpn@));
    r
}

// ---- the protocol above the layers ----
/// A VLESS connection that begins: what is sent, the reader of the answer, and
/// the padding, where the flow asks for it.
#[derive(Debug)]
pub struct VlessSession {
    pub request: Vec<u8>,
    pub answer: VlessResponseStream,
    pub vision: Option<VisionStream>,
}

/// Whether this is how a VLESS connection to a host begins.
pub open spec fn vless_begun(
    o: VlessOptions,
    host: Seq<char>,
    port: u16,
    r: Result<VlessSession, ProxyError>,
) -> bool {
    let padded = o.flow is Some && text::same_nocase(o.flow->0@, VISION_FLOW@);
    match vless::request_bytes(o.id@, host, port, padded) {
        None => r is Err && r->Err_0.says(
            vless::request_fault(o.id@).0,
            vless::request_fault(o.id@).1,
        ),
        Some(b) => {
            &&& r is Ok
            &&& r->Ok_0.request@ == b
            &&& r->Ok_0.answer@ == (AnswerView {
                header_read: false,
                addons_left: None,
                pending: Seq::empty(),
            })
            &&& r->Ok_0.answer.host@ == host && r->Ok_0.answer.port == port
            &&& (r->Ok_0.vision is Some) == padded
            &&& (r->Ok_0.vision is Some ==> r->Ok_0.vision->0.is_new(
                crypto::uuid_bytes(o.id@)->0,
            ))
        },
    }
}

pub fn establish_vless(o: &VlessOptions, host: &str, port: u16) -> (r: Result<
    VlessSession,
    ProxyError,
>)
    ensures
        vless_begun(*o, host@, port, r),
{
    let padded: bool = vless::is_vision(opt_ref(&o.flow));
    let request = match vless::open_request(o.id.as_str(), host, port, padded) {
        Ok(b) => b,
        Err(e) => {
            return Err(e);
        },
    };
    let answer = VlessResponseStream::new(host, port);
    if !padded {
        return Ok(VlessSession { request, answer, vision: None });
    }
    let mut uuid: [u8; 16] = [0u8; 16];
    if !crypto::uuid_write_be(o.id.as_str(), &mut uuid) {
        return Err(ProxyError::new(ProxyErrorCode::AuthRequired, "VLESS user id is unusable"));
    }
    assert(uuid@ =~= crypto::uuid_bytes(o.id@)->0);
    Ok(VlessSession { request, answer, vision: Some(VisionStream::new(uuid)) })
}

/// Whether this is how a Trojan connection to a host begins.
pub open spec fn trojan_begun(
    o: TrojanOptions,
    host: Seq<char>,
    port: u16,
    r: Result<Vec<u8>, ProxyError>,
) -> bool {
    match trojan::request_bytes(o.password@, host, port) {
        Some(b) => r is Ok && r->Ok_0@ == b,
        None => r is Err && r->Err_0.says(
            ProxyErrorCode::StringTooLong,
            "Target host name exceeds the maximum of 255 bytes."@,
        ),
    }
}

/// What a Trojan connection begins with.
pub fn establish_trojan(o: &TrojanOptions, host: &str, port: u16) -> (r: Result<
    Vec<u8>,
    ProxyError,
>)
    ensures
        trojan_begun(*o, host@, port, r),
{
    trojan::open_request(o.password.as_str(), host, port)
}

/// A connection that begins above its layers.
pub enum Session {
    Vless(VlessSession),
    /// The request that is sent first.
    Trojan(Vec<u8>),
    Shadowsocks(SsSession),
    /// The stream, and the request that is sent first.
    Vmess(VmessAuthStream, Vec<u8>),
    Socks5(SocksDial),
    /// The request that is sent first.
    Http(String),
}

/// Whether this is how a connection to a host begins at a time in seconds, or why it
/// does not.
pub open spec fn begun(
    o: OutboundKind,
    host: Seq<char>,
    port: u16,
    now: u64,
    r: Result<Session, ProxyError>,
) -> bool {
    match (o, r) {
        (OutboundKind::Vless(x), Ok(Session::Vless(s))) => vless_begun(x, host, port, Ok(s)),
        (OutboundKind::Vless(x), Err(e)) => vless_begun(x, host, port, Err(e)),
        (OutboundKind::Trojan(x), Ok(Session::Trojan(b))) => trojan_begun(x, host, port, Ok(b)),
        (OutboundKind::Trojan(x), Err(e)) => trojan_begun(x, host, port, Err(e)),
        (OutboundKind::Shadowsocks(x), Ok(Session::Shadowsocks(s))) => ss::begun(
            x,
            host,
            port,
            Ok(s),
        ),
        (OutboundKind::Shadowsocks(x), Err(e)) => ss::begun(x, host, port, Err(e)),
        (OutboundKind::Vmess(x), Ok(Session::Vmess(s, b))) => vmess::stream::begun(
            x,
            host,
            port,
            now,
            Ok((s, b)),
        ),
        (OutboundKind::Vmess(x), Err(e)) => vmess::stream::begun(x, host, port, now, Err(e)),
        (OutboundKind::Socks5(x), Ok(Session::Socks5(d))) => d.is_new(x, host, port),
        (OutboundKind::Http(x), Ok(Session::Http(t))) => t@ == http_connect::request_text(
            host,
            port,
            text::opt_view(x.username),
            text::opt_view(x.password),
        ),
        _ => false,
    }
}

/// Begins a connection to a host, above the layers, at a time in seconds.
pub fn establish(o: &OutboundKind, host: &str, port: u16, now: u64) -> (r: Result<
    Session,
    ProxyError,
>)
    ensures
        begun(*o, host@, port, now, r),
{
    match o {
        OutboundKind::Vless(x) => match establish_vless(x, host, port) {
            Ok(s) => Ok(Session::Vless(s)),
            Err(e) => Err(e),
        },
        OutboundKind::Trojan(x) => match establish_trojan(x, host, port) {
            Ok(b) => Ok(Session::Trojan(b)),
            Err(e) => Err(e),
        },
        OutboundKind::Shadowsocks(x) => match ss::dial_ss(x, host, port) {
            Ok(s) => Ok(Session::Shadowsocks(s)),
            Err(e) => Err(e),
        },
        OutboundKind::Vmess(x) => match vmess::stream::dial_vmess(x, host, port, now) {
            Ok((s, b)) => Ok(Session::Vmess(s, b)),
            Err(e) => Err(e),
        },
        OutboundKind::Socks5(x) => Ok(Session::Socks5(SocksDial::new(x, host, port))),
        OutboundKind::Http(x) => Ok(Session::Http(http_connect::connect_request(x, host, port))),
    }
}

/// Goes on below the encryption: what was read of the layers so far comes before
/// what the TCP connection gives. Nothing of what is written changes.
pub fn vision_detach(
    answer: &mut VlessResponseStream,
    tls: &mut RealityTlsStream,
    leftover: Vec<u8>,
) -> (r: Vec<u8>)
    requires
        old(tls).wf(),
    ensures
        final(tls).wf(),
        r@ == leftover@ + old(answer).pending@ + old(tls).pending@ + old(tls).records.inbound@,
        final(answer)@ == (AnswerView { pending: Seq::empty(), ..old(answer)@ }),
        final(tls)@ == (TlsView {
            pending: Seq::empty(),
            records: RecView { inbound: Seq::empty(), ..old(tls).records@ },
            ..old(tls)@
        }),
        final(tls).records.same_uplink(old(tls).records),
{
    let mut extra = leftover;
    let a = answer.take_pending();
    codec::append(&mut extra, a.as_slice());
    let b = tls.steal_pending();
    codec::append(&mut extra, b.as_slice());
    let c = tls.steal_inbound_leftover();
    codec::append(&mut extra, c.as_slice());
    extra
}

// ---- laws ----
/// The layers of a VLESS connection: the encryption that its options name, with their
/// server name, and the transport with its path and host.
pub proof fn law_vless_layers(o: VlessOptions)
    requires
        o.sni is Some,
        o.sni->0@.len() > 0,
        o.host_header is Some,
        o.host_header->0@.len() > 0,
        o.path is Some,
        o.path->0@.len() > 0,
        o.path->0@[0] == '/',
    ensures
        ({
            let l = vless_layers(o);
            &&& l.path == o.path->0@
            &&& l.host == o.host_header->0@
            &&& l.transport == transport::transport_of(o.transport@)
            &&& (o.security == VlessSecurity::Plain ==> l.security is Plain)
            &&& (o.security == VlessSecurity::Tls ==> l.security is Tls && l.security->Tls_name
                == o.sni->0@ && l.security->insecure == o.allow_insecure)
            &&& (o.security == VlessSecurity::Reality && o.reality_public_key is Some
                ==> l.security is Reality && l.security->Reality_name == o.sni->0@
                && l.security->public_key == o.reality_public_key->0@ && l.security->short_id
                == text::opt_view(o.reality_short_id))
        }),
{
}

/// A REALITY connection that names no application protocols offers h2 and http/1.1.
pub proof fn law_reality_offers_http(o: VlessOptions)
    requires
        o.security == VlessSecurity::Reality,
        o.alpn@.len() == 0,
    ensures
        vless_security(o)->Reality_alpn == seq!["h2"@, "http/1.1"@],
{
}

/// A Trojan connection is always encrypted; like any other it asks for the server name of
/// its options.
pub proof fn law_trojan_layers(o: TrojanOptions)
    ensures
        ({
            let l = trojan_layers(o);
            &&& l.security is Tls
            &&& l.security->insecure == o.allow_insecure
            &&& (o.sni is Some ==> l.security->Tls_name == o.sni->0@)
            &&& (o.sni is None && o.host_header is None ==> l.security->Tls_name == o.host@)
            &&& (o.host_header is Some && o.host_header->0@.len() > 0 ==> l.host
                == o.host_header->0@)
            &&& l.transport == transport::transport_of(o.transport@)
        }),
{
}

/// A Shadowsocks or VMess connection is encrypted where its options say so.
pub proof fn law_optional_encryption(s: SsOptions, v: VmessOptions, e: EdgeOptions)
    ensures
        (ss_layers(s).security is Tls) == s.tls,
        (vmess_layers(v).security is Tls) == v.tls,
        (edge_layers(e).security is Tls) == e.tls,
        !s.tls ==> ss_layers(s).security is Plain,
        !v.tls ==> vmess_layers(v).security is Plain,
        !e.tls ==> edge_layers(e).security is Plain,
        v.tls && v.sni is Some ==> vmess_layers(v).security->Tls_name == v.sni->0@,
        s.tls && s.sni is Some ==> ss_layers(s).security->Tls_name == s.sni->0@,
        e.tls && e.sni is Some ==> edge_layers(e).security->Tls_name == e.sni->0@,
        v.tls ==> vmess_layers(v).security->insecure == v.allow_insecure,
        s.tls ==> ss_layers(s).security->insecure == s.allow_insecure,
        e.tls ==> edge_layers(e).security->insecure == e.allow_insecure,
        vmess_layers(v).transport == transport::transport_of(v.transport@),
        ss_layers(s).transport == transport::transport_of(s.transport@),
        edge_layers(e).transport == TransportKind::RawTcp,
        v.path is Some ==> vmess_layers(v).path == transport::rooted(Some(v.path->0@)),
        s.path is Some ==> ss_layers(s).path == transport::rooted(Some(s.path->0@)),
{
}

/// What a VLESS connection sends first: version 0, the bytes of the id and the target, with
/// the flow named and padded frames where the options ask for xtls-rprx-vision, and only
/// there.
pub proof fn law_vless_connection_begins(
    o: VlessOptions,
    host: Seq<char>,
    port: u16,
    r: Result<VlessSession, ProxyError>,
)
    requires
        vless_begun(o, host, port, r),
        r is Ok,
        crypto::uuid_bytes(o.id@) is Some,
        crypto::uuid_bytes(o.id@)->0.len() == 16,
    ensures
        ({
            let q = r->Ok_0.request@;
            let flow = o.flow is Some && text::lowered(o.flow->0@) == "xtls-rprx-vision"@;
            &&& q.len() > 18
            &&& q[0] == 0
            &&& q.subrange(1, 17) == crypto::uuid_bytes(o.id@)->0
            &&& (r->Ok_0.vision is Some) == flow
            &&& q[17] == (if flow {
                18int
            } else {
                0
            })
            &&& (flow ==> r->Ok_0.vision->0.uuid@ == crypto::uuid_bytes(o.id@)->0)
        }),
{
    reveal_strlit("xtls-rprx-vision");
    assert(text::lowered("xtls-rprx-vision"@) =~= "xtls-rprx-vision"@);
    vless::law_request_layout(o.id@, host, port, true);
    vless::law_request_layout(o.id@, host, port, false);
}

/// Why a node is not dialled: a transport that is not known, REALITY without a key, or a
/// flow that is not known; a node with none of these faults is.
pub proof fn law_faults(v: VlessOptions, t: TrojanOptions, s: SsOptions, m: VmessOptions)
    ensures
        transport::transport_of(t.transport@) is Unsupported <==> trojan_fault(t) is Some,
        transport::transport_of(s.transport@) is Unsupported <==> ss_fault(s) is Some,
        transport::transport_of(m.transport@) is Unsupported <==> vmess_fault(m) is Some,
        trojan_fault(t) is Some ==> (trojan_fault(t)->0).0
            == ProxyErrorCode::TransportUpgradeFailed,
        ss_fault(s) is Some ==> (ss_fault(s)->0).0 == ProxyErrorCode::TransportUpgradeFailed,
        vmess_fault(m) is Some ==> (vmess_fault(m)->0).0 == ProxyErrorCode::TransportUpgradeFailed,
        transport::transport_of(v.transport@) is Unsupported ==> vless_fault(v) is Some && (
        vless_fault(v)->0).0 == ProxyErrorCode::TransportUpgradeFailed,
        transport::transport_of(v.transport@) !is Unsupported && v.security is Reality
            && v.reality_public_key is None ==> vless_fault(v) is Some && (vless_fault(v)->0).0
            == ProxyErrorCode::AuthRequired,
        transport::transport_of(v.transport@) !is Unsupported && v.security !is Reality && (v.flow
            is None || v.flow->0@ == "xtls-rprx-vision"@) ==> vless_fault(v) is None,
{
}

/// The names of protocols follow each other, each with a zero behind it.
pub proof fn law_names_with_zeros(alpn: Seq<Seq<char>>, p: Seq<char>)
    ensures
        alpn_key_of(Seq::empty()) == Seq::<u8>::empty(),
        alpn_key_of(alpn.push(p)) == alpn_key_of(alpn) + vstd::utf8::encode_utf8(p) + seq![0u8],
{
    assert(alpn.push(p).drop_last() =~= alpn);
}

} // verus!
