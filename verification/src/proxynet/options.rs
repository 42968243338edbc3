//! What the outbound protocols are told of a server.

use vstd::prelude::*;

use crate::text;

verus! {

#[derive(Debug, Clone, Copy, PartialEq, Eq, Structural)]
pub enum VlessSecurity {
    Plain,
    Tls,
    Reality,
}

#[derive(Debug, Clone)]
pub struct VlessOptions {
    pub id: String,
    pub host: String,
    pub port: u16,
    pub security: VlessSecurity,
    pub transport: String,
    pub path: Option<String>,
    pub host_header: Option<String>,
    pub sni: Option<String>,
    pub alpn: Vec<String>,
    pub flow: Option<String>,
    pub fingerprint: Option<String>,
    pub reality_public_key: Option<String>,
    pub reality_short_id: Option<String>,
    pub allow_insecure: bool,
}

#[derive(Debug, Clone)]
pub struct TrojanOptions {
    pub password: String,
    pub host: String,
    pub port: u16,
    pub transport: String,
    pub path: Option<String>,
    pub host_header: Option<String>,
    pub sni: Option<String>,
    pub alpn: Vec<String>,
    pub allow_insecure: bool,
}

#[derive(Debug, Clone)]
pub struct SsOptions {
    pub method: String,
    pub password: String,
    pub host: String,
    pub port: u16,
    pub plugin: Option<String>,
    pub plugin_opts: Option<String>,
    pub transport: String,
    pub path: Option<String>,
    pub host_header: Option<String>,
    pub sni: Option<String>,
    pub alpn: Vec<String>,
    pub allow_insecure: bool,
    pub tls: bool,
}

#[derive(Debug, Clone)]
pub struct VmessOptions {
    pub id: String,
    pub security: String,
    pub alter_id: u16,
    pub host: String,
    pub port: u16,
    pub transport: String,
    pub path: Option<String>,
    pub host_header: Option<String>,
    pub sni: Option<String>,
    pub alpn: Vec<String>,
    pub allow_insecure: bool,
    pub tls: bool,
}

#[derive(Debug, Clone)]
pub struct SocksOptions {
    pub username: Option<String>,
    pub password: Option<String>,
}

#[derive(Debug, Clone)]
pub struct HttpProxyOptions {
    pub username: Option<String>,
    pub password: Option<String>,
}

/// How a SOCKS5 or an HTTP proxy is reached, of which their own options say nothing.
#[derive(Debug, Clone)]
pub struct EdgeOptions {
    pub host: String,
    pub host_header: Option<String>,
    pub sni: Option<String>,
    pub allow_insecure: bool,
    pub tls: bool,
}

#[derive(Debug, Clone)]
pub enum OutboundKind {
    Vless(VlessOptions),
    Trojan(TrojanOptions),
    Shadowsocks(SsOptions),
    Vmess(VmessOptions),
    Socks5(SocksOptions),
    Http(HttpProxyOptions),
}

/// The name that TLS asks for: the given one, else the host header, else the
/// host.
pub open spec fn tls_name(
    sni: Option<Seq<char>>,
    header: Option<Seq<char>>,
    host: Seq<char>,
) -> Seq<char> {
    match sni {
        Some(s) => s,
        None => match header {
            Some(h) => h,
            None => host,
        },
    }
}

fn pick<'a>(
    sni: &'a Option<String>,
    header: &'a Option<String>,
    host: &'a String,
) -> (r: &'a str)
    ensures
        r@ == tls_name(text::opt_view(*sni), text::opt_view(*header), host@),
{
    match sni {
        Some(s) => s.as_str(),
        None => match header {
            Some(h) => h.as_str(),
            None => host.as_str(),
        },
    }
}

impl VlessOptions {
    pub fn sni_or_host<'a>(&'a self) -> (r: &'a str)
        ensures
            r@ == tls_name(text::opt_view(self.sni), text::opt_view(self.host_header), self.host@),
    {
        pick(&self.sni, &self.host_header, &self.host)
    }
}

impl TrojanOptions {
    pub fn sni_or_host<'a>(&'a self) -> (r: &'a str)
        ensures
            r@ == tls_name(text::opt_view(self.sni), text::opt_view(self.host_header), self.host@),
    {
        pick(&self.sni, &self.host_header, &self.host)
    }
}

impl SsOptions {
    pub fn sni_or_host<'a>(&'a self) -> (r: &'a str)
        ensures
            r@ == tls_name(text::opt_view(self.sni), text::opt_view(self.host_header), self.host@),
    {
        pick(&self.sni, &self.host_header, &self.host)
    }
}

impl EdgeOptions {
    pub fn sni_or_host<'a>(&'a self) -> (r: &'a str)
        ensures
            r@ == tls_name(text::opt_view(self.sni), text::opt_view(self.host_header), self.host@),
    {
        pick(&self.sni, &self.host_header, &self.host)
    }
}

/// The body cipher that a VMess security name stands for.
pub open spec fn vmess_cipher(security: Seq<char>) -> Seq<char> {
    let s = text::lowered(text::trimmed(security));
    if s == "aes-128-gcm"@ || s == "auto"@ || s == ""@ {
        "aes-128-gcm"@
    } else if s == "chacha20-poly1305"@ || s == "chacha20-ietf-poly1305"@ {
        "chacha20-poly1305"@
    } else {
        s
    }
}

impl VmessOptions {
    pub fn sni_or_host<'a>(&'a self) -> (r: &'a str)
        ensures
            r@ == tls_name(text::opt_view(self.sni), text::opt_view(self.host_header), self.host@),
    {
        pick(&self.sni, &self.host_header, &self.host)
    }

    /// Whether the header is authenticated: no alternative ids are in use.
    pub fn aead(&self) -> (r: bool)
        ensures
            r == (self.alter_id == 0),
    {
        self.alter_id == 0
    }

    pub fn body_security(&self) -> (r: String)
        ensures
            r@ == vmess_cipher(self.security@),
    {
        let c = text::chars_of(self.security.as_str());
        let s = text::lower(text::trim(c.as_slice()));
        if text::is(s.as_slice(), "aes-128-gcm") || text::is(s.as_slice(), "auto") || text::is(
            s.as_slice(),
            "",
        ) {
            "aes-128-gcm".to_owned()
        } else if text::is(s.as_slice(), "chacha20-poly1305") || text::is(
            s.as_slice(),
            "chacha20-ietf-poly1305",
        ) {
            "chacha20-poly1305".to_owned()
        } else {
            text::string_of(s.as_slice())
        }
    }
}

// ---- laws ----
/// The name that TLS asks for: the server name of the options, else the host of the
/// transport, else the server itself.
pub proof fn law_tls_name(sni: Option<Seq<char>>, header: Option<Seq<char>>, host: Seq<char>)
    ensures
        sni is Some ==> tls_name(sni, header, host) == sni->0,
        sni is None && header is Some ==> tls_name(sni, header, host) == header->0,
        sni is None && header is None ==> tls_name(sni, header, host) == host,
{
}

/// The cipher of a VMess node: AES-128-GCM where it names none or leaves the choice.
pub proof fn law_vmess_cipher(s: Seq<char>)
    ensures
        ({
            let n = text::lowered(text::trimmed(s));
            &&& (n.len() == 0 || n == "auto"@ || n == "aes-128-gcm"@ ==> vmess_cipher(s)
                == "aes-128-gcm"@)
            &&& (n == "chacha20-poly1305"@ || n == "chacha20-ietf-poly1305"@ ==> vmess_cipher(s)
                == "chacha20-poly1305"@)
        }),
{
    reveal_strlit("aes-128-gcm");
    reveal_strlit("auto");
    reveal_strlit("");
    reveal_strlit("chacha20-poly1305");
    reveal_strlit("chacha20-ietf-poly1305");
    assert("aes-128-gcm"@.len() == 11 && "auto"@.len() == 4 && ""@.len() == 0);
    assert("chacha20-poly1305"@.len() == 17 && "chacha20-ietf-poly1305"@.len() == 22);
    if text::lowered(text::trimmed(s)).len() == 0 {
        assert(text::lowered(text::trimmed(s)) =~= ""@);
    }
}

} // verus!
