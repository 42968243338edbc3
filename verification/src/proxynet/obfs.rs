//! Obfuscation: a stream that looks like an HTTP upgrade or like TLS.

use vstd::prelude::*;

use crate::bindings;
use crate::bindings::Bindings;
use crate::codec;
use crate::dns::doh;
use crate::proxynet::error;
use crate::proxynet::error::{ProxyError, ProxyErrorCode};
use crate::proxynet::options::SsOptions;
use crate::proxynet::outgoing;
use crate::proxynet::outgoing::Outgoing;
use crate::random;
use crate::text;

verus! {

// ---- plugins ----
/// The plugin that options ask for.
#[derive(Debug)]
pub enum Plugin {
    Plain,
    Http { path: String, host: String },
    Tls { host: String },
}

pub enum PluginView {
    Plain,
    Http(Seq<char>, Seq<char>),
    Tls(Seq<char>),
}

impl View for Plugin {
    type V = PluginView;

    open spec fn view(&self) -> PluginView {
        match self {
            Plugin::Plain => PluginView::Plain,
            Plugin::Http { path, host } => PluginView::Http(path@, host@),
            Plugin::Tls { host } => PluginView::Tls(host@),
        }
    }
}

/// The binding of one part of plugin options: a key before an equals sign, or
/// else before a colon.
pub open spec fn option_pair(part: Seq<char>) -> Option<(Seq<char>, Seq<char>)> {
    match text::cut(part, '=') {
        Some((k, v)) => Some((text::lowered(text::trimmed(k)), text::trimmed(v))),
        None => match text::cut(part, ':') {
            Some((k, v)) => Some((text::lowered(text::trimmed(k)), text::trimmed(v))),
            None => None,
        },
    }
}

pub open spec fn option_pairs(parts: Seq<Seq<char>>) -> Seq<(Seq<char>, Seq<char>)>
    decreases parts.len(),
{
    if parts.len() == 0 {
        Seq::empty()
    } else {
        match option_pair(parts.last()) {
            Some(p) => option_pairs(parts.drop_last()).push(p),
            None => option_pairs(parts.drop_last()),
        }
    }
}

/// The bindings of plugin options.
pub open spec fn plugin_options(s: Seq<char>) -> Seq<(Seq<char>, Seq<char>)> {
    option_pairs(text::pieces(s, ";&"@))
}

pub fn parse_opts(s: &str) -> (r: Bindings)
    ensures
        r@ == plugin_options(s@),
{
    let c = text::chars_of(s);
    let parts = text::split(c.as_slice(), ";&");
    let ghost ps = text::texts(parts@);
    let mut r = Bindings::new();
    let mut i: usize = 0;
    assert(r@ =~= option_pairs(ps.take(0)));
    while i < parts.len()
        invariant
            i <= parts@.len(),
            ps == text::texts(parts@),
            r@ == option_pairs(ps.take(i as int)),
        decreases parts@.len() - i,
    {
        proof {
            assert(ps.take(i + 1).drop_last() =~= ps.take(i as int));
            assert(ps.take(i + 1).last() == parts@[i as int]@);
        }
        let pair = match text::split_once(parts[i], '=') {
            Some(x) => Some(x),
            None => text::split_once(parts[i], ':'),
        };
        if let Some((k, v)) = pair {
            let key = text::lower(text::trim(k));
            let mut value: Vec<char> = Vec::new();
            text::append(&mut value, text::trim(v));
            assert(value@ =~= text::trimmed(v@));
            r.set(key, value);
        }
        i += 1;
    }
    assert(ps.take(i as int) =~= ps);
    r
}

pub open spec fn or_text(o: Option<Seq<char>>, d: Seq<char>) -> Seq<char> {
    match o {
        Some(s) => s,
        None => d,
    }
}

/// The plugin with a name and options, or why there is none.
pub open spec fn plugin_of(
    name: Seq<char>,
    opts: Option<Seq<char>>,
    server: Seq<char>,
) -> Result<PluginView, Seq<char>> {
    let n = text::lowered(text::trimmed(name));
    let o = plugin_options(or_text(opts, ""@));
    if n.len() == 0 || n == "none"@ {
        Ok(PluginView::Plain)
    } else if n == "obfs"@ || n == "obfs-local"@ || n == "simple-obfs"@ {
        let mode = match bindings::value_either(o, "obfs"@, "mode"@) {
            Some(m) => text::lowered(m),
            None => "http"@,
        };
        let host = or_text(bindings::value_either(o, "obfs-host"@, "host"@), server);
        let path = or_text(bindings::value_either(o, "obfs-uri"@, "path"@), "/"@);
        if mode == "http"@ {
            Ok(PluginView::Http(path, host))
        } else if mode == "tls"@ {
            Ok(PluginView::Tls(host))
        } else {
            Err("unsupported simple-obfs mode "@ + mode)
        }
    } else {
        Err("unsupported shadowsocks plugin "@ + n)
    }
}

fn refuse(lit: &str, what: &[char]) -> (r: ProxyError)
    ensures
        r.says(ProxyErrorCode::TransportUpgradeFailed, lit@ + what@),
{
    let mut m = text::chars_of(lit);
    text::append(&mut m, what);
    error::error_of(ProxyErrorCode::TransportUpgradeFailed, &m)
}

/// The plugin that options ask for.
pub fn apply_plugin(plugin: &str, plugin_opts: Option<&str>, options: &SsOptions) -> (r: Result<
    Plugin,
    ProxyError,
>)
    ensures
        match plugin_of(plugin@, text::opt_str(plugin_opts), options.host@) {
            Ok(p) => r is Ok && r->Ok_0@ == p,
            Err(m) => r is Err && r->Err_0.says(ProxyErrorCode::TransportUpgradeFailed, m),
        },
{
    let c = text::chars_of(plugin);
    let n = text::lower(text::trim(c.as_slice()));
    if n.len() == 0 || text::is(n.as_slice(), "none") {
        return Ok(Plugin::Plain);
    }
    let o = parse_opts(
        match plugin_opts {
            Some(s) => s,
            None => "",
        },
    );
    if text::is(n.as_slice(), "obfs") || text::is(n.as_slice(), "obfs-local") || text::is(
        n.as_slice(),
        "simple-obfs",
    ) {
        let mode: Vec<char> = match o.string_either("obfs", "mode") {
            Some(m) => {
                let mc = text::chars_of(m.as_str());
                text::lower(mc.as_slice())
            },
            None => text::chars_of("http"),
        };
        let host = match o.string_either("obfs-host", "host") {
            Some(h) => h,
            None => options.host.clone(),
        };
        let path = match o.string_either("obfs-uri", "path") {
            Some(p) => p,
            None => "/".to_owned(),
        };
        if text::is(mode.as_slice(), "http") {
            Ok(Plugin::Http { path, host })
        } else if text::is(mode.as_slice(), "tls") {
            Ok(Plugin::Tls { host })
        } else {
            Err(refuse("unsupported simple-obfs mode ", mode.as_slice()))
        }
    } else {
        Err(refuse("unsupported shadowsocks plugin ", n.as_slice()))
    }
}

// ---- HTTP ----
/// The longest head of an answer.
pub const MAX_ANSWER: usize = 4096;

/// The request that carries the first data.
pub open spec fn http_request_bytes(
    path: Seq<char>,
    host: Seq<char>,
    body: Seq<u8>,
    key: Seq<u8>,
    major: nat,
    minor: nat,
) -> Seq<u8> {
    vstd::utf8::encode_utf8(
        "GET "@ + (if path.len() == 0 {
            "/"@
        } else {
            path
        }) + " HTTP/1.1\r\nHost: "@ + host + "\r\nUser-Agent: curl/7."@ + text::dec(major) + "."@
            + text::dec(minor)
            + "\r\nUpgrade: websocket\r\nConnection: Upgrade\r\nSec-WebSocket-Key: "@
            + codec::base64_encoded(key) + "\r\nContent-Length: "@ + text::dec(body.len())
            + "\r\n\r\n"@,
    ) + body
}

/// Builds the request with the given key and version numbers.
pub fn http_request_with(
    path: &str,
    host: &str,
    body: &[u8],
    key: &[u8],
    major: u32,
    minor: u32,
) -> (r: Vec<u8>)
    ensures
        r@ == http_request_bytes(path@, host@, body@, key@, major as nat, minor as nat),
{
    let mut out = text::chars_of("GET ");
    if path.is_empty() {
        text::append_str(&mut out, "/");
    } else {
        text::append_str(&mut out, path);
    }
    text::append_str(&mut out, " HTTP/1.1\r\nHost: ");
    text::append_str(&mut out, host);
    text::append_str(&mut out, "\r\nUser-Agent: curl/7.");
    let a = text::format_dec(major as u64);
    text::append(&mut out, a.as_slice());
    text::append_str(&mut out, ".");
    let b = text::format_dec(minor as u64);
    text::append(&mut out, b.as_slice());
    text::append_str(
        &mut out,
        "\r\nUpgrade: websocket\r\nConnection: Upgrade\r\nSec-WebSocket-Key: ",
    );
    let k = codec::base64_encode(key);
    text::append_str(&mut out, k.as_str());
    text::append_str(&mut out, "\r\nContent-Length: ");
    let n = text::format_dec(body.len() as u64);
    text::append(&mut out, n.as_slice());
    text::append_str(&mut out, "\r\n\r\n");
    let s = text::string_of(out.as_slice());
    let mut r = codec::bytes_of(s.as_str());
    codec::append(&mut r, body);
    r
}

/// Whether a request is one with some key and version numbers.
pub open spec fn is_http_request(
    r: Seq<u8>,
    path: Seq<char>,
    host: Seq<char>,
    body: Seq<u8>,
) -> bool {
    exists|key: Seq<u8>, major: nat, minor: nat|
        key.len() == 16 && major < 51 && minor < 2 && r == #[trigger] http_request_bytes(
            path,
            host,
            body,
            key,
            major,
            minor,
        )
}

/// Builds the request with a random key and random version numbers.
pub fn build_http_request(path: &str, host: &str, body: &[u8]) -> (r: Vec<u8>)
    ensures
        is_http_request(r@, path@, host@, body@),
{
    let key = random::random_bytes(16);
    let major: u32 = random::random_u32() % 51;
    let minor: u32 = random::random_u32() % 2;
    http_request_with(path, host, body, key.as_slice(), major, minor)
}

/// What is being read: the head of the answer, what came behind it, or the
/// stream itself.
#[derive(Debug)]
pub enum HttpRead {
    Header(Vec<u8>),
    Leftover(Vec<u8>),
    Transfer,
}

#[derive(Debug)]
pub enum ObfsRead {
    Data(Vec<u8>),
    /// More has to be read.
    More,
    /// The stream below is read directly.
    Through,
    Fail(String),
}

/// A stream behind an HTTP upgrade.
#[derive(Debug)]
pub struct HttpObfsStream {
    pub path: String,
    pub host: String,
    pub read: HttpRead,
    /// Whether the request has been begun, and what is left of it.
    pub begun: bool,
    pub out: Outgoing,
}

pub enum HttpReadView {
    Header(Seq<u8>),
    Leftover(Seq<u8>),
    Transfer,
}

impl View for HttpRead {
    type V = HttpReadView;

    open spec fn view(&self) -> HttpReadView {
        match self {
            HttpRead::Header(b) => HttpReadView::Header(b@),
            HttpRead::Leftover(b) => HttpReadView::Leftover(b@),
            HttpRead::Transfer => HttpReadView::Transfer,
        }
    }
}

impl HttpObfsStream {
    pub open spec fn wf(self) -> bool {
        self.out.wf()
    }

    pub open spec fn same_uplink(self, o: HttpObfsStream) -> bool {
        self.path == o.path && self.host == o.host && self.begun == o.begun && self.out == o.out
    }

    pub fn new(path: String, host: String) -> (r: Self)
        ensures
            r.wf(),
            r.path == path,
            r.host == host,
            r.read@ == HttpReadView::Header(Seq::empty()),
            !r.begun,
            r.out.frame@.len() == 0,
    {
        let r = HttpObfsStream {
            path,
            host,
            read: HttpRead::Header(Vec::new()),
            begun: false,
            out: Outgoing::new(),
        };
        assert(r.read->Header_0@ =~= Seq::empty());
        r
    }

    /// Reads at most `max` bytes.
    pub fn read(&mut self, max: usize) -> (r: ObfsRead)
        ensures
            final(self).same_uplink(*old(self)),
            match old(self).read@ {
                HttpReadView::Header(b) => final(self).read@ == old(self).read@ && if b.len()
                    > MAX_ANSWER {
                    r is Fail && r->Fail_0@ == "obfs http response too large"@
                } else {
                    r is More
                },
                HttpReadView::Leftover(b) => if b.len() == 0 {
                    r is Through && final(self).read@ == HttpReadView::Transfer
                } else {
                    let d = outgoing::at_most(b, max as int);
                    r is Data && r->Data_0@ == d && final(self).read@ == (if d.len() == b.len() {
                        HttpReadView::Transfer
                    } else {
                        HttpReadView::Leftover(b.skip(d.len() as int))
                    })
                },
                HttpReadView::Transfer => r is Through && final(self).read@
                    == HttpReadView::Transfer,
            },
    {
        let mut rest: Vec<u8> = Vec::new();
        match &self.read {
            HttpRead::Header(b) => {
                if b.len() > MAX_ANSWER {
                    return ObfsRead::Fail("obfs http response too large".to_owned());
                }
                return ObfsRead::More;
            },
            HttpRead::Leftover(b) => {
                rest = codec::copy(b.as_slice());
            },
            HttpRead::Transfer => {
                return ObfsRead::Through;
            },
        }
        if rest.len() == 0 {
            self.read = HttpRead::Transfer;
            return ObfsRead::Through;
        }
        let d = outgoing::take_some(&mut rest, max);
        self.read = if rest.len() == 0 {
            HttpRead::Transfer
        } else {
            HttpRead::Leftover(rest)
        };
        ObfsRead::Data(d)
    }

    /// Takes bytes of the answer.
    pub fn feed(&mut self, b: &[u8])
        requires
            old(self).read is Header,
        ensures
            final(self).same_uplink(*old(self)),
            ({
                let all = old(self).read->Header_0@ + b@;
                final(self).read@ == match doh::blank_line_from(all, 0) {
                    Some(i) => HttpReadView::Leftover(all.skip(i + 4)),
                    None => HttpReadView::Header(all),
                }
            }),
    {
        let mut all: Vec<u8> = Vec::new();
        if let HttpRead::Header(a) = &self.read {
            all = codec::copy(a.as_slice());
        }
        codec::append(&mut all, b);
        let n: usize = all.len();
        match doh::find_blank_line(all.as_slice()) {
            Some(i) => {
                let rest = codec::copy(&all.as_slice()[i + 4..n]);
                assert(rest@ =~= all@.skip(i + 4));
                self.read = HttpRead::Leftover(rest);
            },
            None => {
                self.read = HttpRead::Header(all);
            },
        }
    }

    /// Begins to write data: the first of it goes with the request; says whether
    /// data goes to the stream below as it is.
    pub fn begin_write(&mut self, data: &[u8]) -> (raw: bool)
        requires
            old(self).wf(),
        ensures
            final(self).wf(),
            final(self).path == old(self).path,
            final(self).host == old(self).host,
            final(self).read == old(self).read,
            final(self).begun,
            raw == (old(self).begun && old(self).out.frame@.len() == 0),
            if old(self).begun {
                final(self).out == old(self).out
            } else {
                &&& is_http_request(
                    final(self).out.left(),
                    old(self).path@,
                    old(self).host@,
                    data@,
                )
                &&& final(self).out.carries == data@.len()
            },
    {
        if self.begun {
            return self.out.is_idle();
        }
        let req = build_http_request(self.path.as_str(), self.host.as_str(), data);
        self.out.begin(req, data.len());
        self.begun = true;
        false
    }
}

// ---- TLS ----
/// How much of the server's side is skipped: its hello and what follows it.
pub const HELLO_SKIP: usize = 105;

/// The most data in one record.
pub const MAX_RECORD: usize = 16384;

/// The numbers of the cipher suites that the hello names.
pub open spec fn hello_suites() -> Seq<u8> {
    seq![
        0xc0u8, 0x2cu8, 0xc0u8, 0x30u8, 0x00u8, 0x9fu8, 0xccu8, 0xa9u8, 0xccu8, 0xa8u8, 0xccu8,
        0xaau8, 0xc0u8, 0x2bu8, 0xc0u8, 0x2fu8, 0x00u8, 0x9eu8, 0xc0u8, 0x24u8, 0xc0u8, 0x28u8,
        0x00u8, 0x6bu8, 0xc0u8, 0x23u8, 0xc0u8, 0x27u8, 0x00u8, 0x67u8, 0xc0u8, 0x0au8, 0xc0u8,
        0x14u8, 0x00u8, 0x39u8, 0xc0u8, 0x09u8, 0xc0u8, 0x13u8, 0x00u8, 0x33u8, 0x00u8, 0x9du8,
        0x00u8, 0x9cu8, 0x00u8, 0x3du8, 0x00u8, 0x3cu8, 0x00u8, 0x35u8, 0x00u8, 0x2fu8, 0x00u8,
        0xffu8,
    ]
}

/// The extensions behind the server name.
pub open spec fn hello_others() -> Seq<u8> {
    seq![
        0x00u8, 0x0bu8, 0x00u8, 0x04u8, 0x03u8, 0x01u8, 0x00u8, 0x02u8, 0x00u8, 0x0au8, 0x00u8,
        0x0au8, 0x00u8, 0x08u8, 0x00u8, 0x1du8, 0x00u8, 0x17u8, 0x00u8, 0x19u8, 0x00u8, 0x18u8,
        0x00u8, 0x0du8, 0x00u8, 0x20u8, 0x00u8, 0x1eu8, 0x06u8, 0x01u8, 0x06u8, 0x02u8, 0x06u8,
        0x03u8, 0x05u8, 0x01u8, 0x05u8, 0x02u8, 0x05u8, 0x03u8, 0x04u8, 0x01u8, 0x04u8, 0x02u8,
        0x04u8, 0x03u8, 0x03u8, 0x01u8, 0x03u8, 0x02u8, 0x03u8, 0x03u8, 0x02u8, 0x01u8, 0x02u8,
        0x02u8, 0x02u8, 0x03u8, 0x00u8, 0x16u8, 0x00u8, 0x00u8, 0x00u8, 0x17u8, 0x00u8, 0x00u8,
    ]
}

/// The lowest 16 bits of a number.
pub open spec fn low16(n: int) -> Seq<u8> {
    codec::be16_bytes(n % 65536)
}

/// The first data, as a session ticket.
pub open spec fn ticket_bytes(payload: Seq<u8>) -> Seq<u8> {
    seq![0x00u8, 0x23u8] + low16(payload.len() as int) + payload
}

/// The server name.
pub open spec fn sni_bytes(host: Seq<u8>) -> Seq<u8> {
    seq![0u8, 0u8] + low16(host.len() as int + 5) + low16(host.len() as int + 3) + seq![0u8] + low16(
        host.len() as int,
    ) + host
}

/// The body of the hello.
pub open spec fn hello_body(
    host: Seq<u8>,
    payload: Seq<u8>,
    random: Seq<u8>,
    session: Seq<u8>,
) -> Seq<u8> {
    let ext = ticket_bytes(payload).len() + sni_bytes(host).len() + 66;
    seq![3u8, 3u8] + random + seq![32u8] + session + seq![0u8, 56u8] + hello_suites() + seq![1u8, 0u8]
        + low16(ext as int) + ticket_bytes(payload) + sni_bytes(host) + hello_others()
}

/// A client hello that carries the first data.
pub open spec fn hello_bytes(
    host: Seq<u8>,
    payload: Seq<u8>,
    random: Seq<u8>,
    session: Seq<u8>,
) -> Seq<u8> {
    let body = hello_body(host, payload, random, session);
    let n = body.len() as int;
    seq![0x16u8, 3u8, 1u8] + low16(n + 4) + seq![1u8, (n / 65536 % 256) as u8] + low16(n) + body
}

fn push_low16(out: &mut Vec<u8>, n: usize)
    ensures
        final(out)@ == old(out)@ + low16(n as int),
{
    codec::push_be16(out, (n % 65536) as u16);
}

fn push_suites(out: &mut Vec<u8>)
    ensures
        final(out)@ == old(out)@ + hello_suites(),
{
    let s: [u8; 56] = [
        0xc0, 0x2c, 0xc0, 0x30, 0x00, 0x9f, 0xcc, 0xa9, 0xcc, 0xa8, 0xcc, 0xaa, 0xc0, 0x2b, 0xc0,
        0x2f, 0x00, 0x9e, 0xc0, 0x24, 0xc0, 0x28, 0x00, 0x6b, 0xc0, 0x23, 0xc0, 0x27, 0x00, 0x67,
        0xc0, 0x0a, 0xc0, 0x14, 0x00, 0x39, 0xc0, 0x09, 0xc0, 0x13, 0x00, 0x33, 0x00, 0x9d, 0x00,
        0x9c, 0x00, 0x3d, 0x00, 0x3c, 0x00, 0x35, 0x00, 0x2f, 0x00, 0xff,
    ];
    assert(s@ =~= hello_suites());
    codec::append(out, s.as_slice());
}

fn push_others(out: &mut Vec<u8>)
    ensures
        final(out)@ == old(out)@ + hello_others(),
{
    let s: [u8; 66] = [
        0x00, 0x0b, 0x00, 0x04, 0x03, 0x01, 0x00, 0x02, 0x00, 0x0a, 0x00, 0x0a, 0x00, 0x08, 0x00,
        0x1d, 0x00, 0x17, 0x00, 0x19, 0x00, 0x18, 0x00, 0x0d, 0x00, 0x20, 0x00, 0x1e, 0x06, 0x01,
        0x06, 0x02, 0x06, 0x03, 0x05, 0x01, 0x05, 0x02, 0x05, 0x03, 0x04, 0x01, 0x04, 0x02, 0x04,
        0x03, 0x03, 0x01, 0x03, 0x02, 0x03, 0x03, 0x02, 0x01, 0x02, 0x02, 0x02, 0x03, 0x00, 0x16,
        0x00, 0x00, 0x00, 0x17, 0x00, 0x00,
    ];
    assert(s@ =~= hello_others());
    codec::append(out, s.as_slice());
}

fn build_ticket(payload: &[u8]) -> (r: Vec<u8>)
    ensures
        r@ == ticket_bytes(payload@),
{
    let mut r: Vec<u8> = Vec::new();
    r.push(0x00);
    r.push(0x23);
    assert(r@ =~= seq![0x00u8, 0x23u8]);
    push_low16(&mut r, payload.len());
    codec::append(&mut r, payload);
    r
}

fn build_sni(host: &[u8]) -> (r: Vec<u8>)
    requires
        host@.len() + 5 <= usize::MAX,
    ensures
        r@ == sni_bytes(host@),
{
    let n: usize = host.len();
    let mut r: Vec<u8> = Vec::new();
    r.push(0);
    r.push(0);
    assert(r@ =~= seq![0u8, 0u8]);
    push_low16(&mut r, n + 5);
    push_low16(&mut r, n + 3);
    let ghost a = r@;
    r.push(0);
    assert(r@ =~= a + seq![0u8]);
    push_low16(&mut r, n);
    codec::append(&mut r, host);
    r
}

/// Random bytes whose first four are a time in seconds.
pub open spec fn timed(now: u32, random: Seq<u8>) -> Seq<u8> {
    codec::be32_bytes(now as int) + random.skip(4)
}

fn put_time(now: u32, random: [u8; 32]) -> (r: Vec<u8>)
    ensures
        r@ == timed(now, random@),
        r@.len() == 32,
{
    let mut r: Vec<u8> = Vec::new();
    codec::push_be32(&mut r, now);
    codec::append(&mut r, &random.as_slice()[4..32]);
    assert(r@ =~= timed(now, random@));
    r
}

/// Builds the hello at a time in seconds, with the given random values.
pub fn build_tls_client_hello(
    host: &[u8],
    payload: &[u8],
    now: u32,
    random: [u8; 32],
    session: [u8; 32],
) -> (r: Vec<u8>)
    requires
        host@.len() + payload@.len() + 300 <= usize::MAX,
    ensures
        r@ == hello_bytes(host@, payload@, timed(now, random@), session@),
{
    let random = put_time(now, random);
    let ticket = build_ticket(payload);
    let sni = build_sni(host);
    let mut b: Vec<u8> = Vec::new();
    b.push(3);
    b.push(3);
    assert(b@ =~= seq![3u8, 3u8]);
    codec::append(&mut b, random.as_slice());
    let ghost g0 = b@;
    b.push(32);
    assert(b@ =~= g0 + seq![32u8]);
    codec::append(&mut b, session.as_slice());
    let ghost g1 = b@;
    b.push(0);
    b.push(56);
    assert(b@ =~= g1 + seq![0u8, 56u8]);
    push_suites(&mut b);
    let ghost g2 = b@;
    b.push(1);
    b.push(0);
    assert(b@ =~= g2 + seq![1u8, 0u8]);
    push_low16(&mut b, ticket.len() + sni.len() + 66);
    codec::append(&mut b, ticket.as_slice());
    codec::append(&mut b, sni.as_slice());
    push_others(&mut b);
    assert(b@ == hello_body(host@, payload@, random@, session@));
    let n: usize = b.len();
    let mut out: Vec<u8> = Vec::new();
    out.push(0x16);
    out.push(3);
    out.push(1);
    assert(out@ =~= seq![0x16u8, 3u8, 1u8]);
    push_low16(&mut out, n + 4);
    let ghost h0 = out@;
    out.push(1);
    out.push((n / 65536 % 256) as u8);
    assert(out@ =~= h0 + seq![1u8, (n as int / 65536 % 256) as u8]);
    push_low16(&mut out, n);
    codec::append(&mut out, b.as_slice());
    out
}

/// What is being read: what is skipped, the head of a record, its body.
#[derive(Debug)]
pub enum TlsRead {
    Skip(usize),
    Head(Vec<u8>),
    Body(usize),
}

pub enum TlsReadView {
    Skip(nat),
    Head(Seq<u8>),
    Body(nat),
}

impl View for TlsRead {
    type V = TlsReadView;

    open spec fn view(&self) -> TlsReadView {
        match self {
            TlsRead::Skip(n) => TlsReadView::Skip(*n as nat),
            TlsRead::Head(h) => TlsReadView::Head(h@),
            TlsRead::Body(n) => TlsReadView::Body(*n as nat),
        }
    }
}

/// What is being written: the hello with the first data, the head of a record,
/// its body.
#[derive(Debug)]
pub enum TlsWrite {
    Hello,
    Flush,
    Head { payload: u16, off: usize },
    Body(usize),
}

/// A stream in records that look like TLS.
#[derive(Debug)]
pub struct TlsObfsStream {
    pub host: String,
    pub read: TlsRead,
    pub write: TlsWrite,
    pub out: Outgoing,
}

/// How many bytes are read next, at most.
pub open spec fn read_room(s: TlsReadView, max: nat) -> nat {
    match s {
        TlsReadView::Skip(n) => if n < 128 {
            n
        } else {
            128
        },
        TlsReadView::Head(h) => (5 - h.len()) as nat,
        TlsReadView::Body(n) => if n < max {
            n
        } else {
            max
        },
    }
}

/// Where a record goes on behind some of its body.
pub open spec fn behind(n: nat) -> TlsReadView {
    if n == 0 {
        TlsReadView::Head(Seq::empty())
    } else {
        TlsReadView::Body(n)
    }
}

/// The head of a record with so much data.
pub open spec fn record_head(payload: u16) -> Seq<u8> {
    seq![0x17u8, 3u8, 3u8] + codec::be16_bytes(payload as int)
}

fn build_record_head(payload: u16) -> (r: Vec<u8>)
    ensures
        r@ == record_head(payload),
        r@.len() == 5,
{
    let mut h: Vec<u8> = Vec::new();
    h.push(0x17);
    h.push(3);
    h.push(3);
    assert(h@ =~= seq![0x17u8, 3u8, 3u8]);
    codec::push_be16(&mut h, payload);
    h
}

/// What writing some of the bytes leads to.
#[derive(Debug)]
pub enum TlsWrote {
    /// More is written before data counts as written.
    More,
    /// So much data is written.
    Data(usize),
    Fail(&'static str),
}

pub open spec fn record_size(n: int) -> int {
    if n < MAX_RECORD {
        n
    } else {
        MAX_RECORD as int
    }
}

impl TlsObfsStream {
    pub open spec fn wf(self) -> bool {
        &&& self.out.wf()
        &&& (self.read is Head ==> self.read->Head_0@.len() < 5)
        &&& (self.read is Skip ==> self.read->Skip_0 > 0)
        &&& (self.write is Head ==> self.write->off < 5)
    }

    pub open spec fn same_uplink(self, o: TlsObfsStream) -> bool {
        self.host == o.host && self.write == o.write && self.out == o.out
    }

    pub fn new(host: String) -> (r: Self)
        ensures
            r.wf(),
            r.host == host,
            r.read@ == TlsReadView::Skip(HELLO_SKIP as nat),
            r.write is Hello,
            r.out.frame@.len() == 0,
    {
        TlsObfsStream {
            host,
            read: TlsRead::Skip(HELLO_SKIP),
            write: TlsWrite::Hello,
            out: Outgoing::new(),
        }
    }

    /// How many bytes are read next, at most, where `max` bytes of data have
    /// room.
    pub fn room(&self, max: usize) -> (r: usize)
        requires
            self.wf(),
        ensures
            r == read_room(self.read@, max as nat),
    {
        match &self.read {
            TlsRead::Skip(n) => if *n < 128 {
                *n
            } else {
                128
            },
            TlsRead::Head(h) => 5 - h.len(),
            TlsRead::Body(n) => if *n < max {
                *n
            } else {
                max
            },
        }
    }

    /// Takes the bytes that were read; none means that the stream below ended.
    pub fn feed(&mut self, b: &[u8]) -> (r: ObfsRead)
        requires
            old(self).wf(),
            b@.len() <= read_room(old(self).read@, usize::MAX as nat),
        ensures
            final(self).wf(),
            final(self).same_uplink(*old(self)),
            match old(self).read@ {
                TlsReadView::Skip(n) => if b@.len() == 0 {
                    r is Fail && r->Fail_0@ == "obfs tls hello eof"@ && final(self).read@ == old(
                        self
                    ).read@
                } else {
                    r is More && final(self).read@ == (if b@.len() == n {
                        TlsReadView::Head(Seq::empty())
                    } else {
                        TlsReadView::Skip((n - b@.len()) as nat)
                    })
                },
                TlsReadView::Head(h) => if b@.len() == 0 {
                    r is Fail && r->Fail_0@ == "obfs tls header eof"@ && final(self).read@ == old(
                        self
                    ).read@
                } else {
                    let all = h + b@;
                    r is More && final(self).read@ == (if all.len() < 5 {
                        TlsReadView::Head(all)
                    } else {
                        TlsReadView::Body(codec::be16(all[3], all[4]) as nat)
                    })
                },
                TlsReadView::Body(n) => if b@.len() == 0 {
                    r is Fail && r->Fail_0@ == "obfs tls body eof"@ && final(self).read@ == old(
                        self
                    ).read@
                } else {
                    r is Data && r->Data_0@ == b@ && final(self).read@ == behind(
                        (n - b@.len()) as nat,
                    )
                },
            },
    {
        let mut head: Vec<u8> = Vec::new();
        match &self.read {
            TlsRead::Skip(n) => {
                if b.len() == 0 {
                    return ObfsRead::Fail("obfs tls hello eof".to_owned());
                }
                let left: usize = *n - b.len();
                if left == 0 {
                    assert(head@ =~= Seq::empty());
                    self.read = TlsRead::Head(head);
                } else {
                    self.read = TlsRead::Skip(left);
                }
                return ObfsRead::More;
            },
            TlsRead::Body(n) => {
                if b.len() == 0 {
                    return ObfsRead::Fail("obfs tls body eof".to_owned());
                }
                let left: usize = *n - b.len();
                if left == 0 {
                    assert(head@ =~= Seq::empty());
                    self.read = TlsRead::Head(head);
                } else {
                    self.read = TlsRead::Body(left);
                }
                return ObfsRead::Data(codec::copy(b));
            },
            TlsRead::Head(h) => {
                if b.len() == 0 {
                    return ObfsRead::Fail("obfs tls header eof".to_owned());
                }
                head = codec::copy(h.as_slice());
            },
        }
        codec::append(&mut head, b);
        if head.len() < 5 {
            self.read = TlsRead::Head(head);
        } else {
            let n: usize = codec::read_be16(head[3], head[4]) as usize;
            self.read = TlsRead::Body(n);
        }
        ObfsRead::More
    }

    /// Goes on to what is written next of data: the hello at a time in seconds with the
    /// given random values, or the head of a record before its body.
    pub fn advance(&mut self, data: &[u8], now: u32, random: [u8; 32], session: [u8; 32])
        requires
            old(self).wf(),
            vstd::utf8::encode_utf8(old(self).host@).len() + MAX_RECORD + 300 <= usize::MAX,
        ensures
            final(self).wf(),
            final(self).host == old(self).host,
            final(self).read == old(self).read,
            match old(self).write {
                TlsWrite::Hello => final(self).write is Flush && final(self).out.left()
                    == hello_bytes(
                    vstd::utf8::encode_utf8(old(self).host@),
                    outgoing::at_most(data@, MAX_RECORD as int),
                    timed(now, random@),
                    session@,
                ),
                TlsWrite::Body(n) => final(self).out == old(self).out && final(self).write == (
                if n == 0 {
                    TlsWrite::Head { payload: record_size(data@.len() as int) as u16, off: 0 }
                } else {
                    old(self).write
                }),
                _ => final(self).out == old(self).out && final(self).write == old(self).write,
            },
    {
        match self.write {
            TlsWrite::Hello => {
                let n: usize = if data.len() < MAX_RECORD {
                    data.len()
                } else {
                    MAX_RECORD
                };
                let chunk = &data[0..n];
                assert(chunk@ =~= outgoing::at_most(data@, MAX_RECORD as int));
                let host = codec::bytes_of(self.host.as_str());
                let hello = build_tls_client_hello(host.as_slice(), chunk, now, random, session);
                self.out.begin(hello, n);
                self.write = TlsWrite::Flush;
            },
            TlsWrite::Body(left) => {
                if left == 0 {
                    let n: usize = if data.len() < MAX_RECORD {
                        data.len()
                    } else {
                        MAX_RECORD
                    };
                    self.write = TlsWrite::Head { payload: n as u16, off: 0 };
                }
            },
            _ => {},
        }
    }

    /// What is written next of data.
    pub open spec fn next_bytes(self, data: Seq<u8>) -> Seq<u8> {
        match self.write {
            TlsWrite::Hello => Seq::empty(),
            TlsWrite::Flush => self.out.left(),
            TlsWrite::Head { payload, off } => record_head(payload).skip(off as int),
            TlsWrite::Body(n) => outgoing::at_most(data, n as int),
        }
    }

    pub fn pending(&self, data: &[u8]) -> (r: Vec<u8>)
        requires
            self.wf(),
        ensures
            r@ == self.next_bytes(data@),
    {
        match self.write {
            TlsWrite::Hello => {
                let r: Vec<u8> = Vec::new();
                assert(r@ =~= Seq::empty());
                r
            },
            TlsWrite::Flush => codec::copy(self.out.rest()),
            TlsWrite::Head { payload, off } => {
                let h = build_record_head(payload);
                let r = codec::copy(&h.as_slice()[off..5]);
                assert(r@ =~= record_head(payload).skip(off as int));
                r
            },
            TlsWrite::Body(n) => {
                let m: usize = if data.len() <= n {
                    data.len()
                } else {
                    n
                };
                let r = codec::copy(&data[0..m]);
                assert(r@ =~= outgoing::at_most(data@, n as int));
                r
            },
        }
    }

    /// Some of what is written next was written.
    pub fn wrote(&mut self, data: &[u8], n: usize) -> (r: TlsWrote)
        requires
            old(self).wf(),
            n <= old(self).next_bytes(data@).len(),
        ensures
            final(self).wf(),
            final(self).host == old(self).host,
            final(self).read == old(self).read,
            match old(self).write {
                TlsWrite::Hello => r is More && final(self).write is Hello,
                TlsWrite::Flush => final(self).out.left() == old(self).out.left().skip(n as int)
                    && if n == old(self).out.left().len() {
                    r == TlsWrote::Data(record_size(data@.len() as int) as usize)
                        && final(self).write == TlsWrite::Body(0)
                } else {
                    r is More && final(self).write is Flush
                },
                TlsWrite::Head { payload, off } => final(self).out == old(self).out && if n == 0 {
                    r is Fail && r->Fail_0@ == "obfs tls header"@ && final(self).write == old(
                        self
                    ).write
                } else if off + n >= 5 {
                    r is More && final(self).write == TlsWrite::Body(payload as usize)
                } else {
                    r is More && final(self).write == (TlsWrite::Head {
                        payload,
                        off: (off + n) as usize,
                    })
                },
                TlsWrite::Body(left) => final(self).out == old(self).out && if n == 0 {
                    r is Fail && r->Fail_0@ == "obfs tls body"@ && final(self).write == old(
                        self
                    ).write
                } else {
                    r == TlsWrote::Data(n) && final(self).write == TlsWrite::Body(
                        (left - n) as usize,
                    )
                },
            },
    {
        match self.write {
            TlsWrite::Hello => TlsWrote::More,
            TlsWrite::Flush => {
                if self.out.wrote(n) {
                    self.write = TlsWrite::Body(0);
                    let m: usize = if data.len() < MAX_RECORD {
                        data.len()
                    } else {
                        MAX_RECORD
                    };
                    TlsWrote::Data(m)
                } else {
                    TlsWrote::More
                }
            },
            TlsWrite::Head { payload, off } => {
                if n == 0 {
                    return TlsWrote::Fail("obfs tls header");
                }
                if off + n >= 5 {
                    self.write = TlsWrite::Body(payload as usize);
                } else {
                    self.write = TlsWrite::Head { payload, off: off + n };
                }
                TlsWrote::More
            },
            TlsWrite::Body(left) => {
                if n == 0 {
                    return TlsWrote::Fail("obfs tls body");
                }
                self.write = TlsWrite::Body(left - n);
                TlsWrote::Data(n)
            },
        }
    }
}

// ---- laws ----
/// What is written as a record is read as its data: the head names its length,
/// and behind the data the next head follows.
pub proof fn law_record_reads_back(data: Seq<u8>)
    requires
        0 < data.len() <= MAX_RECORD,
    ensures
        ({
            let h = record_head(data.len() as u16);
            &&& h.len() == 5
            &&& codec::be16(h[3], h[4]) == data.len()
            &&& behind(0) == TlsReadView::Head(Seq::empty())
        }),
{
    codec::law_be16_reads_back(data.len() as int);
    let h = record_head(data.len() as u16);
    let b = codec::be16_bytes(data.len() as int);
    assert(h[3] == b[0] && h[4] == b[1]);
}

/// The lengths in the hello are those of what they stand before, where the host
/// and the data are not too long.
pub proof fn law_hello_lengths(
    host: Seq<u8>,
    payload: Seq<u8>,
    random: Seq<u8>,
    session: Seq<u8>,
)
    requires
        random.len() == 32,
        session.len() == 32,
        payload.len() <= MAX_RECORD,
        host.len() <= 255,
    ensures
        ({
            let h = hello_bytes(host, payload, random, session);
            let n = hello_body(host, payload, random, session).len();
            &&& codec::be16(h[3], h[4]) == h.len() - 5
            &&& codec::be24(h[6], h[7], h[8]) == n
            &&& h.len() == n + 9
        }),
{
    lemma_body_length(host, payload, random, session);
    lemma_hello_frame(hello_body(host, payload, random, session));
}

proof fn lemma_body_length(host: Seq<u8>, payload: Seq<u8>, random: Seq<u8>, session: Seq<u8>)
    requires
        random.len() == 32,
        session.len() == 32,
    ensures
        hello_body(host, payload, random, session).len() == 208 + payload.len() + host.len(),
{
    assert(hello_suites().len() == 56);
    assert(hello_others().len() == 66);
    assert(ticket_bytes(payload).len() == 4 + payload.len());
    assert(sni_bytes(host).len() == 9 + host.len());
}

proof fn lemma_hello_frame(body: Seq<u8>)
    requires
        body.len() < 60000,
    ensures
        ({
            let n = body.len() as int;
            let h = seq![0x16u8, 3u8, 1u8] + low16(n + 4) + seq![1u8, (n / 65536 % 256) as u8]
                + low16(n) + body;
            &&& codec::be16(h[3], h[4]) == h.len() - 5
            &&& codec::be24(h[6], h[7], h[8]) == n
            &&& h.len() == n + 9
        }),
{
    let n = body.len() as int;
    let a = low16(n + 4);
    let b = low16(n);
    let h = seq![0x16u8, 3u8, 1u8] + a + seq![1u8, (n / 65536 % 256) as u8] + b + body;
    codec::law_be16_reads_back(n + 4);
    codec::law_be16_reads_back(n);
    assert(h[3] == a[0] && h[4] == a[1]);
    assert(h[6] == (n / 65536 % 256) as u8);
    assert(h[7] == b[0] && h[8] == b[1]);
}

/// The request that hides the first data: a GET of the path, the host, the client's name,
/// the headers that ask for a WebSocket, a key, the length of the data, an empty
/// line, and the data itself.
pub proof fn law_http_request_lines(
    path: Seq<char>,
    host: Seq<char>,
    body: Seq<u8>,
    key: Seq<u8>,
    major: nat,
    minor: nat,
)
    requires
        path.len() > 0,
    ensures
        ({
            let head = vstd::utf8::encode_utf8(
                "GET "@ + path + " HTTP/1.1\r\nHost: "@ + host + "\r\nUser-Agent: curl/7."@
                    + text::dec(major) + "."@ + text::dec(minor)
                    + "\r\nUpgrade: websocket\r\nConnection: Upgrade\r\nSec-WebSocket-Key: "@
                    + codec::base64_encoded(key) + "\r\nContent-Length: "@ + text::dec(body.len())
                    + "\r\n\r\n"@,
            );
            let r = http_request_bytes(path, host, body, key, major, minor);
            &&& r == head + body
            &&& r.skip(head.len() as int) == body
        }),
{
    let head = vstd::utf8::encode_utf8(
        "GET "@ + path + " HTTP/1.1\r\nHost: "@ + host + "\r\nUser-Agent: curl/7."@ + text::dec(
            major,
        ) + "."@ + text::dec(minor)
            + "\r\nUpgrade: websocket\r\nConnection: Upgrade\r\nSec-WebSocket-Key: "@
            + codec::base64_encoded(key) + "\r\nContent-Length: "@ + text::dec(body.len())
            + "\r\n\r\n"@,
    );
    assert((head + body).skip(head.len() as int) =~= body);
}

/// A record that looks like data of TLS: type 23, version 3.3, and the length.
pub proof fn law_record_head_layout(n: u16)
    ensures
        ({
            let h = record_head(n);
            &&& h.len() == 5
            &&& h[0] == 23 && h[1] == 3 && h[2] == 3
            &&& h[3] * 256 + h[4] == n
        }),
{
    codec::law_high_byte_first(n as int);
}

/// The hello that hides the first data: a handshake record with a hello of version 3.3,
/// the random bytes, a session id of 32 bytes, 28 suites, no compression, and the
/// extensions; the first of them is a session ticket that is the data, the second the
/// name of the host.
#[verifier::spinoff_prover]
#[verifier::rlimit(80)]
pub proof fn law_hello_layout(
    host: Seq<u8>,
    payload: Seq<u8>,
    random: Seq<u8>,
    session: Seq<u8>,
)
    requires
        random.len() == 32,
        session.len() == 32,
        payload.len() <= MAX_RECORD,
        host.len() <= 255,
    ensures
        ({
            let h = hello_bytes(host, payload, random, session);
            let k = payload.len() as int;
            let n = host.len() as int;
            &&& h.len() == 217 + k + n
            &&& h[0] == 22 && h[1] == 3 && h[2] == 1
            &&& h[5] == 1
            &&& h[9] == 3 && h[10] == 3
            &&& h.subrange(11, 43) == random
            &&& h[43] == 32
            &&& h.subrange(44, 76) == session
            &&& h[76] == 0 && h[77] == 56
            &&& h[134] == 1 && h[135] == 0
            &&& h[136] * 256 + h[137] == h.len() - 138
            &&& h[138] == 0 && h[139] == 35
            &&& h[140] * 256 + h[141] == k
            &&& h.subrange(142, 142 + k) == payload
            &&& h[142 + k] == 0 && h[143 + k] == 0
            &&& h[144 + k] * 256 + h[145 + k] == n + 5
            &&& h[148 + k] == 0
            &&& h[149 + k] * 256 + h[150 + k] == n
            &&& h.subrange(151 + k, 151 + k + n) == host
        }),
{
    let k = payload.len() as int;
    let n = host.len() as int;
    let t = ticket_bytes(payload);
    let s = sni_bytes(host);
    let ext = k + 4 + (n + 9) + 66;
    codec::law_high_byte_first(k);
    codec::law_high_byte_first(n);
    codec::law_high_byte_first(n + 5);
    codec::law_high_byte_first(ext);
    assert(t.len() == k + 4 && s.len() == n + 9);
    assert(t.skip(4) =~= payload);
    assert(s.skip(9) =~= host);
    lemma_hello_parts(t, s, random, session, ext);
    let body = hello_body(host, payload, random, session);
    let h = hello_bytes(host, payload, random, session);
    lemma_hello_head(body);
    lemma_hello_places(h, body, t, s, payload, host, random, session);
}

proof fn lemma_hello_head(body: Seq<u8>)
    ensures
        ({
            let n = body.len() as int;
            let h = seq![0x16u8, 3u8, 1u8] + low16(n + 4) + seq![1u8, (n / 65536 % 256) as u8]
                + low16(n) + body;
            &&& h.len() == 9 + n
            &&& h.skip(9) == body
            &&& h[0] == 22 && h[1] == 3 && h[2] == 1
            &&& h[5] == 1
        }),
{
    let n = body.len() as int;
    let h = seq![0x16u8, 3u8, 1u8] + low16(n + 4) + seq![1u8, (n / 65536 % 256) as u8] + low16(n)
        + body;
    assert(h.skip(9) =~= body);
}

proof fn lemma_hello_places(
    h: Seq<u8>,
    body: Seq<u8>,
    t: Seq<u8>,
    s: Seq<u8>,
    payload: Seq<u8>,
    host: Seq<u8>,
    random: Seq<u8>,
    session: Seq<u8>,
)
    requires
        h.len() == 9 + body.len(),
        h.skip(9) == body,
        t.len() == payload.len() + 4,
        s.len() == host.len() + 9,
        t.skip(4) == payload,
        s.skip(9) == host,
        random.len() == 32,
        session.len() == 32,
        body.len() == 129 + t.len() + s.len() + 66,
        body.subrange(2, 34) == random,
        body.subrange(35, 67) == session,
        body.subrange(129, 129 + t.len() as int) == t,
        body.subrange(129 + t.len() as int, 129 + t.len() as int + s.len() as int) == s,
    ensures
        ({
            let k = payload.len() as int;
            let n = host.len() as int;
            &&& h[9] == body[0] && h[10] == body[1]
            &&& h.subrange(11, 43) == random
            &&& h[43] == body[34]
            &&& h.subrange(44, 76) == session
            &&& h[76] == body[67] && h[77] == body[68]
            &&& h[134] == body[125] && h[135] == body[126]
            &&& h[136] == body[127] && h[137] == body[128]
            &&& h[138] == t[0] && h[139] == t[1] && h[140] == t[2] && h[141] == t[3]
            &&& h.subrange(142, 142 + k) == payload
            &&& h[142 + k] == s[0] && h[143 + k] == s[1] && h[144 + k] == s[2] && h[145 + k]
                == s[3]
            &&& h[148 + k] == s[6] && h[149 + k] == s[7] && h[150 + k] == s[8]
            &&& h.subrange(151 + k, 151 + k + n) == host
        }),
{
    let k = payload.len() as int;
    let n = host.len() as int;
    assert forall|i: int| 0 <= i < body.len() implies #[trigger] body[i] == h[9 + i] by {
        assert(h.skip(9)[i] == h[9 + i]);
    }
    assert forall|i: int| 0 <= i < t.len() implies #[trigger] t[i] == h[138 + i] by {
        assert(body.subrange(129, 129 + t.len() as int)[i] == body[129 + i]);
    }
    assert forall|i: int| 0 <= i < s.len() implies #[trigger] s[i] == h[142 + k + i] by {
        let e = 129 + t.len() as int;
        assert(body.subrange(e, e + s.len() as int)[i] == body[e + i]);
    }
    assert(h.subrange(11, 43) =~= random) by {
        assert forall|i: int| 0 <= i < 32 implies h.subrange(11, 43)[i] == random[i] by {
            assert(body.subrange(2, 34)[i] == body[2 + i]);
        }
    }
    assert(h.subrange(44, 76) =~= session) by {
        assert forall|i: int| 0 <= i < 32 implies h.subrange(44, 76)[i] == session[i] by {
            assert(body.subrange(35, 67)[i] == body[35 + i]);
        }
    }
    assert(h.subrange(142, 142 + k) =~= payload) by {
        assert forall|i: int| 0 <= i < k implies h.subrange(142, 142 + k)[i] == payload[i] by {
            assert(t.skip(4)[i] == t[4 + i]);
        }
    }
    assert(h.subrange(151 + k, 151 + k + n) =~= host) by {
        assert forall|i: int| 0 <= i < n implies h.subrange(151 + k, 151 + k + n)[i] == host[i] by {
            assert(s.skip(9)[i] == s[9 + i]);
        }
    }
    assert(body[0] == h[9] && body[1] == h[10] && body[34] == h[43] && body[67] == h[76]);
    assert(body[68] == h[77] && body[125] == h[134] && body[126] == h[135]);
    assert(body[127] == h[136] && body[128] == h[137]);
    assert(t[0] == h[138] && t[1] == h[139] && t[2] == h[140] && t[3] == h[141]);
    assert(s[0] == h[142 + k] && s[1] == h[143 + k] && s[2] == h[144 + k] && s[3] == h[145 + k]);
    assert(s[6] == h[148 + k] && s[7] == h[149 + k] && s[8] == h[150 + k]);
}

proof fn lemma_hello_parts(
    t: Seq<u8>,
    s: Seq<u8>,
    random: Seq<u8>,
    session: Seq<u8>,
    ext: int,
)
    requires
        random.len() == 32,
        session.len() == 32,
        0 <= ext < 0x1_0000,
    ensures
        ({
            let b = seq![3u8, 3u8] + random + seq![32u8] + session + seq![0u8, 56u8]
                + hello_suites() + seq![1u8, 0u8] + low16(ext) + t + s + hello_others();
            &&& b.len() == 129 + t.len() + s.len() + 66
            &&& b[0] == 3 && b[1] == 3
            &&& b.subrange(2, 34) == random
            &&& b[34] == 32
            &&& b.subrange(35, 67) == session
            &&& b[67] == 0 && b[68] == 56
            &&& b[125] == 1 && b[126] == 0
            &&& b[127] * 256 + b[128] == ext
            &&& b.subrange(129, 129 + t.len() as int) == t
            &&& b.subrange(129 + t.len() as int, 129 + t.len() as int + s.len() as int) == s
        }),
{
    codec::law_high_byte_first(ext);
    let suites = hello_suites();
    let others = hello_others();
    assert(suites.len() == 56 && others.len() == 66);
    let b = seq![3u8, 3u8] + random + seq![32u8] + session + seq![0u8, 56u8] + suites + seq![
        1u8,
        0u8,
    ] + low16(ext) + t + s + others;
    assert(b.subrange(2, 34) =~= random);
    assert(b.subrange(35, 67) =~= session);
    assert(b.subrange(129, 129 + t.len() as int) =~= t);
    assert(b.subrange(129 + t.len() as int, 129 + t.len() as int + s.len() as int) =~= s);
}

/// The plugin that its options ask for: the mode, `http` where none is named, the host,
/// the server where none is named, and the path.
pub proof fn law_plugin_options(
    name: Seq<char>,
    opts: Seq<char>,
    server: Seq<char>,
    host: Seq<char>,
    path: Seq<char>,
)
    requires
        text::lowered(text::trimmed(name)) == "obfs-local"@,
        bindings::value_of(plugin_options(opts), "obfs-host"@) == Some(host),
        bindings::value_of(plugin_options(opts), "obfs-uri"@) == Some(path),
    ensures
        bindings::value_of(plugin_options(opts), "obfs"@) == Some("tls"@) ==> plugin_of(
            name,
            Some(opts),
            server,
        ) == Ok::<PluginView, Seq<char>>(PluginView::Tls(host)),
        bindings::value_of(plugin_options(opts), "obfs"@) == Some("http"@) ==> plugin_of(
            name,
            Some(opts),
            server,
        ) == Ok::<PluginView, Seq<char>>(PluginView::Http(path, host)),
{
    reveal_strlit("obfs-local");
    reveal_strlit("none");
    reveal_strlit("tls");
    reveal_strlit("http");
    assert("obfs-local"@.len() == 10 && "none"@.len() == 4);
    assert("tls"@.len() == 3 && "http"@.len() == 4);
    assert(text::lowered("tls"@) =~= "tls"@);
    assert(text::lowered("http"@) =~= "http"@);
}

/// A piece of plugin options binds what stands before its equals sign to what stands
/// behind it.
pub proof fn law_option_reads_back(k: Seq<char>, v: Seq<char>)
    requires
        forall|i: int| 0 <= i < k.len() ==> (#[trigger] k[i]) != '=',
        text::trimmed(k) == k,
        text::trimmed(v) == v,
    ensures
        option_pair(k + seq!['='] + v) == Some((text::lowered(k), v)),
{
    let p = k + seq!['='] + v;
    let n = k.len() as int;
    text::lemma_sep_from(p, seq!['='], 0);
    assert(seq!['='][0] == '=');
    assert(p[n] == '=');
    assert forall|i: int| 0 <= i < n implies !seq!['='].contains(#[trigger] p[i]) by {
        assert(p[i] == k[i]);
    }
    assert(p.take(n) =~= k);
    assert(p.skip(n + 1) =~= v);
}

} // verus!
