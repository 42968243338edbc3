//! Transports: plain TCP, an HTTP upgrade, and WebSocket frames.

use vstd::prelude::*;

use crate::codec;
use crate::dns::doh;
use crate::hash;
use crate::proxynet::error;
use crate::proxynet::error::{ProxyError, ProxyErrorCode};
use crate::proxynet::outgoing;
use crate::proxynet::outgoing::Outgoing;
use crate::random;
use crate::text;

verus! {

#[derive(Debug, Clone, Copy, PartialEq, Eq, Structural)]
pub enum TransportKind {
    RawTcp,
    WebSocket,
    HttpUpgrade,
    Unsupported,
}

/// The transport with a name; none is plain TCP, and the case of the letters
/// does not count.
pub open spec fn transport_of(name: Seq<char>) -> TransportKind {
    let t = text::lowered(name);
    if name.len() == 0 || t == "tcp"@ || t == "raw"@ {
        TransportKind::RawTcp
    } else if t == "ws"@ || t == "websocket"@ {
        TransportKind::WebSocket
    } else if t == "httpupgrade"@ {
        TransportKind::HttpUpgrade
    } else {
        TransportKind::Unsupported
    }
}

pub fn resolve_transport(transport: &str) -> (r: TransportKind)
    ensures
        r == transport_of(transport@),
{
    let c = text::chars_of(transport);
    if c.len() == 0 {
        return TransportKind::RawTcp;
    }
    let t = text::lower(c.as_slice());
    if text::is(t.as_slice(), "tcp") || text::is(t.as_slice(), "raw") {
        TransportKind::RawTcp
    } else if text::is(t.as_slice(), "ws") || text::is(t.as_slice(), "websocket") {
        TransportKind::WebSocket
    } else if text::is(t.as_slice(), "httpupgrade") {
        TransportKind::HttpUpgrade
    } else {
        TransportKind::Unsupported
    }
}

/// A path that begins with a slash.
pub open spec fn rooted(path: Option<Seq<char>>) -> Seq<char> {
    match path {
        None => "/"@,
        Some(p) => if p.len() == 0 {
            "/"@
        } else if p[0] == '/' {
            p
        } else {
            "/"@ + p
        },
    }
}

pub fn normalize_path(path: Option<&str>) -> (r: String)
    ensures
        r@ == rooted(text::opt_str(path)),
{
    match path {
        None => "/".to_owned(),
        Some(p) => {
            let c = text::chars_of(p);
            if c.len() == 0 {
                "/".to_owned()
            } else if c[0] == '/' {
                p.to_owned()
            } else {
                let mut out = text::chars_of("/");
                text::append(&mut out, c.as_slice());
                text::string_of(out.as_slice())
            }
        },
    }
}

/// The host that an upgrade names: the header, else the server name, else the
/// server.
pub open spec fn host_header_of(
    host_header: Option<Seq<char>>,
    sni: Option<Seq<char>>,
    server_host: Seq<char>,
) -> Seq<char> {
    if host_header is Some && host_header->0.len() > 0 {
        host_header->0
    } else if sni is Some && sni->0.len() > 0 {
        sni->0
    } else {
        server_host
    }
}

pub fn resolve_host_header(host_header: Option<&str>, sni: Option<&str>, server_host: &str) -> (r:
    String)
    ensures
        r@ == host_header_of(text::opt_str(host_header), text::opt_str(sni), server_host@),
{
    if let Some(h) = host_header {
        if !h.is_empty() {
            return h.to_owned();
        }
    }
    if let Some(s) = sni {
        if !s.is_empty() {
            return s.to_owned();
        }
    }
    server_host.to_owned()
}

// ---- the upgrade ----
/// The longest head of an answer.
pub const MAX_ANSWER: usize = 65536;

/// What is hashed behind the key of a WebSocket.
pub const WS_GUID: &'static str = "258EAFA5-E914-47DA-95CA-C5AB0DC85B11";

/// The request for an upgrade; the key is that of a WebSocket.
pub open spec fn upgrade_text(path: Seq<char>, host: Seq<char>, key: Option<Seq<char>>) -> Seq<
    char,
> {
    "GET "@ + path + " HTTP/1.1\r\nHost: "@ + host
        + "\r\nUpgrade: websocket\r\nConnection: Upgrade\r\n"@ + (match key {
        Some(k) => "Sec-WebSocket-Key: "@ + k + "\r\nSec-WebSocket-Version: 13\r\n"@,
        None => Seq::empty(),
    }) + "\r\n"@
}

pub fn upgrade_request(path: &str, host: &str, key: Option<&str>) -> (r: String)
    ensures
        r@ == upgrade_text(path@, host@, text::opt_str(key)),
{
    let mut out = text::chars_of("GET ");
    text::append_str(&mut out, path);
    text::append_str(&mut out, " HTTP/1.1\r\nHost: ");
    text::append_str(&mut out, host);
    text::append_str(&mut out, "\r\nUpgrade: websocket\r\nConnection: Upgrade\r\n");
    let ghost before = out@;
    let ghost lines: Seq<char> = match text::opt_str(key) {
        Some(k) => "Sec-WebSocket-Key: "@ + k + "\r\nSec-WebSocket-Version: 13\r\n"@,
        None => Seq::empty(),
    };
    if let Some(k) = key {
        text::append_str(&mut out, "Sec-WebSocket-Key: ");
        text::append_str(&mut out, k);
        text::append_str(&mut out, "\r\nSec-WebSocket-Version: 13\r\n");
    }
    assert(out@ =~= before + lines);
    text::append_str(&mut out, "\r\n");
    text::string_of(out.as_slice())
}

/// The answer that a key of a WebSocket calls for.
pub open spec fn accept_text(key: Seq<char>) -> Seq<char> {
    codec::base64_encoded(
        hash::sha1_digest(
            vstd::utf8::encode_utf8(key) + vstd::utf8::encode_utf8(WS_GUID@),
        ),
    )
}

pub fn expected_accept(key: &str) -> (r: String)
    ensures
        r@ == accept_text(key@),
{
    let mut b = codec::bytes_of(key);
    let g = codec::bytes_of(WS_GUID);
    codec::append(&mut b, g.as_slice());
    let d = hash::sha1(b.as_slice());
    codec::base64_encode(d.as_slice())
}

/// A random key: 16 bytes in Base64.
pub fn websocket_key() -> (r: String)
    ensures
        exists|b: Seq<u8>| b.len() == 16 && r@ == #[trigger] codec::base64_encoded(b),
{
    let b = random::random_bytes(16);
    codec::base64_encode(b.as_slice())
}

/// The first position of a byte, from `i` on.
pub open spec fn byte_from(s: Seq<u8>, c: u8, i: int) -> Option<int>
    decreases s.len() - i,
{
    if i >= s.len() {
        None
    } else if s[i] == c {
        Some(i)
    } else {
        byte_from(s, c, i + 1)
    }
}

pub proof fn lemma_byte_from(s: Seq<u8>, c: u8, i: int)
    requires
        0 <= i,
    ensures
        match byte_from(s, c, i) {
            Some(j) => i <= j < s.len() && s[j] == c,
            None => true,
        },
    decreases s.len() - i,
{
    if i < s.len() && s[i] != c {
        lemma_byte_from(s, c, i + 1);
    }
}

fn find_byte(s: &[u8], c: u8) -> (r: Option<usize>)
    ensures
        match r {
            Some(i) => byte_from(s@, c, 0) == Some(i as int) && i < s@.len(),
            None => byte_from(s@, c, 0) is None,
        },
{
    let n: usize = s.len();
    let mut i: usize = 0;
    while i < n
        invariant
            i <= n == s@.len(),
            byte_from(s@, c, 0) == byte_from(s@, c, i as int),
        decreases n - i,
    {
        if s[i] == c {
            return Some(i);
        }
        i += 1;
    }
    None
}

/// The bytes before the first `c`; all where there is none.
pub open spec fn before_byte(s: Seq<u8>, c: u8) -> Seq<u8> {
    match byte_from(s, c, 0) {
        Some(i) => s.take(i),
        None => s,
    }
}

/// The bytes behind the first `c`, where there is one.
pub open spec fn after_byte(s: Seq<u8>, c: u8) -> Option<Seq<u8>> {
    match byte_from(s, c, 0) {
        Some(i) => Some(s.skip(i + 1)),
        None => None,
    }
}

/// A line without the carriage return at its end.
pub open spec fn no_cr(s: Seq<u8>) -> Seq<u8> {
    if s.len() > 0 && s.last() == 13 {
        s.drop_last()
    } else {
        s
    }
}

fn split_byte<'a>(s: &'a [u8], c: u8) -> (r: (&'a [u8], Option<&'a [u8]>))
    ensures
        r.0@ == before_byte(s@, c),
        (match r.1 {
            Some(t) => Some(t@),
            None => None,
        }) == after_byte(s@, c),
        r.1 is Some ==> r.1->0@.len() < s@.len(),
{
    let n: usize = s.len();
    match find_byte(s, c) {
        Some(i) => {
            let a = &s[0..i];
            let b = &s[i + 1..n];
            assert(a@ =~= s@.take(i as int));
            assert(b@ =~= s@.skip(i + 1));
            (a, Some(b))
        },
        None => (s, None),
    }
}

fn strip_cr<'a>(s: &'a [u8]) -> (r: &'a [u8])
    ensures
        r@ == no_cr(s@),
{
    let n: usize = s.len();
    if n > 0 && s[n - 1] == 13 {
        let r = &s[0..n - 1];
        assert(r@ =~= s@.drop_last());
        r
    } else {
        s
    }
}

/// The status of an answer: the number that the second word of its first line
/// writes.
pub open spec fn status_of(header: Seq<u8>) -> Option<int> {
    match after_byte(no_cr(before_byte(header, 10)), 32) {
        None => None,
        Some(rest) => {
            let code = before_byte(rest, 32);
            if vstd::utf8::valid_utf8(code) {
                text::short_value(vstd::utf8::decode_utf8(code))
            } else {
                None
            }
        },
    }
}

pub fn parse_status(header: &[u8]) -> (r: Option<i32>)
    ensures
        (match r {
            Some(v) => Some(v as int),
            None => None,
        }) == status_of(header@),
{
    let (line, _) = split_byte(header, 10);
    let (_, rest) = split_byte(strip_cr(line), 32);
    match rest {
        None => None,
        Some(rest) => {
            let (code, _) = split_byte(rest, 32);
            match codec::utf8_string(codec::copy(code)) {
                Some(s) => {
                    let c = text::chars_of(s.as_str());
                    text::parse_i32(c.as_slice())
                },
                None => None,
            }
        },
    }
}

pub open spec fn lower_byte(b: u8) -> u8 {
    if 65 <= b <= 90 {
        (b + 32) as u8
    } else {
        b
    }
}

/// Whether a name is one in lower case, but for the case of its letters.
pub open spec fn same_name(a: Seq<u8>, lower: Seq<u8>) -> bool {
    a.len() == lower.len() && forall|i: int|
        0 <= i < a.len() ==> lower_byte(#[trigger] a[i]) == lower[i]
}

fn eq_ignore_ascii(a: &[u8], lower: &[u8]) -> (r: bool)
    ensures
        r == same_name(a@, lower@),
{
    let n: usize = a.len();
    if n != lower.len() {
        return false;
    }
    let mut i: usize = 0;
    while i < n
        invariant
            i <= n == a@.len(),
            n == lower@.len(),
            forall|j: int| 0 <= j < i ==> lower_byte(#[trigger] a@[j]) == lower@[j],
        decreases n - i,
    {
        let b: u8 = a[i];
        let l: u8 = if b >= 65 && b <= 90 {
            b + 32
        } else {
            b
        };
        if l != lower[i] {
            assert(lower_byte(a@[i as int]) != lower@[i as int]);
            return false;
        }
        i += 1;
    }
    true
}

pub open spec fn is_blank(b: u8) -> bool {
    b == 32 || b == 9
}

/// Bytes without the spaces and tabs at their ends.
pub open spec fn unpadded(s: Seq<u8>) -> Seq<u8>
    decreases s.len(),
{
    if s.len() > 0 && is_blank(s[0]) {
        unpadded(s.skip(1))
    } else if s.len() > 0 && is_blank(s.last()) {
        unpadded(s.drop_last())
    } else {
        s
    }
}

fn trim_blanks<'a>(s: &'a [u8]) -> (r: &'a [u8])
    ensures
        r@ == unpadded(s@),
{
    let mut a: usize = 0;
    let mut b: usize = s.len();
    assert(s@.subrange(0, b as int) =~= s@);
    while a < b && (s[a] == 32 || s[a] == 9)
        invariant
            a <= b == s@.len(),
            unpadded(s@) == unpadded(s@.subrange(a as int, b as int)),
        decreases b - a,
    {
        assert(s@.subrange(a as int, b as int).skip(1) =~= s@.subrange(a + 1, b as int));
        a += 1;
    }
    while b > a && (s[b - 1] == 32 || s[b - 1] == 9)
        invariant
            a <= b <= s@.len(),
            a < b ==> !is_blank(s@[a as int]),
            unpadded(s@) == unpadded(s@.subrange(a as int, b as int)),
        decreases b - a,
    {
        assert(s@.subrange(a as int, b as int).drop_last() =~= s@.subrange(a as int, b - 1));
        b -= 1;
    }
    &s[a..b]
}

/// The value of the first header with a name, among the lines of a head behind
/// its first one; the search ends at an empty line, and at one without a colon.
pub open spec fn value_from(lines: Seq<u8>, name: Seq<u8>) -> Option<Seq<u8>>
    decreases lines.len(),
    via value_from_decreases
{
    let line = no_cr(before_byte(lines, 10));
    if line.len() == 0 {
        None
    } else {
        match byte_from(line, 58, 0) {
            None => None,
            Some(i) => if i == name.len() && same_name(line.take(i), name) {
                Some(unpadded(line.skip(i + 1)))
            } else {
                match after_byte(lines, 10) {
                    Some(rest) => value_from(rest, name),
                    None => None,
                }
            },
        }
    }
}

#[via_fn]
proof fn value_from_decreases(lines: Seq<u8>, name: Seq<u8>) {
    lemma_byte_from(lines, 10, 0);
}

pub open spec fn value_of_header(headers: Seq<u8>, name: Seq<u8>) -> Option<Seq<u8>> {
    match after_byte(headers, 10) {
        Some(rest) => value_from(rest, name),
        None => None,
    }
}

/// The value of a header whose name is given in lower case.
pub fn header_value<'a>(headers: &'a [u8], name: &[u8]) -> (r: Option<&'a [u8]>)
    ensures
        (match r {
            Some(v) => Some(v@),
            None => None,
        }) == value_of_header(headers@, name@),
{
    let (_, first) = split_byte(headers, 10);
    let ghost want = value_of_header(headers@, name@);
    let mut lines: &'a [u8] = match first {
        Some(l) => l,
        None => {
            return None;
        },
    };
    loop
        invariant
            want == value_of_header(headers@, name@),
            want == value_from(lines@, name@),
        decreases lines@.len(),
    {
        let (raw, next) = split_byte(lines, 10);
        let line = strip_cr(raw);
        if line.len() == 0 {
            return None;
        }
        match find_byte(line, 58) {
            None => {
                return None;
            },
            Some(i) => {
                let n: usize = line.len();
                let key = &line[0..i];
                assert(key@ =~= line@.take(i as int));
                if i == name.len() && eq_ignore_ascii(key, name) {
                    let v = &line[i + 1..n];
                    assert(v@ =~= line@.skip(i + 1));
                    return Some(trim_blanks(v));
                }
            },
        }
        match next {
            Some(l) => {
                lines = l;
            },
            None => {
                return None;
            },
        }
    }
}

/// What is known of the answer to an upgrade so far.
#[derive(Debug)]
pub enum UpgradeStep {
    More,
    /// The upgrade is done; what came behind the head belongs to the stream.
    Done(Vec<u8>),
    Fail(ProxyError),
}

/// The name of the header that answers a key, in ASCII.
pub open spec fn accept_name() -> Seq<u8> {
    seq![
        0x73u8, 0x65u8, 0x63u8, 0x2du8, 0x77u8, 0x65u8, 0x62u8, 0x73u8, 0x6fu8, 0x63u8, 0x6bu8,
        0x65u8, 0x74u8, 0x2du8, 0x61u8, 0x63u8, 0x63u8, 0x65u8, 0x70u8, 0x74u8,
    ]
}

/// Why the head of an answer is refused, if it is.
pub open spec fn upgrade_fault(header: Seq<u8>, expected: Option<Seq<char>>) -> Option<Seq<char>> {
    match status_of(header) {
        None => Some(
            "The proxy returned a malformed HTTP response to the upgrade request."@,
        ),
        Some(status) => if status < 0 {
            Some("The proxy returned a malformed HTTP response to the upgrade request."@)
        } else if status != 101 {
            Some(
                "The proxy refused the HTTP upgrade with status "@ + text::dec(status as nat)
                    + " (expected 101). The configured path is the usual cause."@,
            )
        } else {
            match expected {
                None => None,
                Some(e) => match value_of_header(header, accept_name()) {
                    None => Some(
                        "The proxy accepted the upgrade but sent no Sec-WebSocket-Accept header."@,
                    ),
                    Some(v) => if v != vstd::utf8::encode_utf8(e) {
                        Some("The proxy's Sec-WebSocket-Accept did not match the challenge."@)
                    } else {
                        None
                    },
                },
            }
        },
    }
}

fn failed(m: &str) -> (r: Option<ProxyError>)
    ensures
        r is Some && r->0.says(ProxyErrorCode::TransportUpgradeFailed, m@),
{
    Some(ProxyError::new(ProxyErrorCode::TransportUpgradeFailed, m))
}

/// Judges the head of an answer.
pub fn judge_upgrade(header: &[u8], expected: Option<&str>) -> (r: Option<ProxyError>)
    ensures
        match upgrade_fault(header@, text::opt_str(expected)) {
            Some(m) => r is Some && r->0.says(ProxyErrorCode::TransportUpgradeFailed, m),
            None => r is None,
        },
{
    let status: i32 = match parse_status(header) {
        Some(s) => s,
        None => {
            return failed("The proxy returned a malformed HTTP response to the upgrade request.");
        },
    };
    if status < 0 {
        return failed("The proxy returned a malformed HTTP response to the upgrade request.");
    }
    if status != 101 {
        let mut m = text::chars_of("The proxy refused the HTTP upgrade with status ");
        let d = text::format_dec(status as u64);
        text::append(&mut m, d.as_slice());
        text::append_str(
            &mut m,
            " (expected 101). The configured path is the usual cause.",
        );
        return Some(error::error_of(ProxyErrorCode::TransportUpgradeFailed, &m));
    }
    match expected {
        None => None,
        Some(e) => {
            let name: [u8; 20] = [
                0x73, 0x65, 0x63, 0x2d, 0x77, 0x65, 0x62, 0x73, 0x6f, 0x63, 0x6b, 0x65, 0x74, 0x2d,
                0x61, 0x63, 0x63, 0x65, 0x70, 0x74,
            ];
            assert(name@ =~= accept_name());
            match header_value(header, name.as_slice()) {
                None => failed(
                    "The proxy accepted the upgrade but sent no Sec-WebSocket-Accept header.",
                ),
                Some(v) => {
                    let want = codec::bytes_of(e);
                    if !codec::same_bytes(v, want.as_slice()) {
                        return failed(
                            "The proxy's Sec-WebSocket-Accept did not match the challenge.",
                        );
                    }
                    None
                },
            }
        },
    }
}

/// Takes what was read of an answer; `expected` is the answer to the key of a
/// WebSocket.
pub fn read_upgrade(buf: &[u8], expected: Option<&str>) -> (r: UpgradeStep)
    ensures
        match doh::blank_line_from(buf@, 0) {
            Some(i) => match upgrade_fault(buf@.take(i + 4), text::opt_str(expected)) {
                Some(m) => r is Fail && r->Fail_0.says(
                    ProxyErrorCode::TransportUpgradeFailed,
                    m,
                ),
                None => r is Done && r->Done_0@ == buf@.skip(i + 4),
            },
            None => if buf@.len() > MAX_ANSWER {
                r is Fail && r->Fail_0.says(
                    ProxyErrorCode::TransportUpgradeFailed,
                    "HTTP upgrade response too large"@,
                )
            } else {
                r is More
            },
        },
{
    let n: usize = buf.len();
    match doh::find_blank_line(buf) {
        Some(i) => {
            let header = &buf[0..i + 4];
            assert(header@ =~= buf@.take(i + 4));
            match judge_upgrade(header, expected) {
                Some(e) => UpgradeStep::Fail(e),
                None => {
                    let rest = codec::copy(&buf[i + 4..n]);
                    assert(rest@ =~= buf@.skip(i + 4));
                    UpgradeStep::Done(rest)
                },
            }
        },
        None => if n > MAX_ANSWER {
            UpgradeStep::Fail(
                ProxyError::new(
                    ProxyErrorCode::TransportUpgradeFailed,
                    "HTTP upgrade response too large",
                ),
            )
        } else {
            UpgradeStep::More
        },
    }
}

// ---- WebSocket frames ----
/// What a frame carries.
#[derive(Debug)]
pub enum WsEvent {
    Payload(Vec<u8>),
    Skip,
    Close,
}

pub enum WsView {
    Payload(Seq<u8>),
    Skip,
    Close,
}

impl View for WsEvent {
    type V = WsView;

    open spec fn view(&self) -> WsView {
        match self {
            WsEvent::Payload(p) => WsView::Payload(p@),
            WsEvent::Skip => WsView::Skip,
            WsEvent::Close => WsView::Close,
        }
    }
}

/// The number that eight bytes write, the most significant first.
pub open spec fn be64(b: Seq<u8>) -> int {
    codec::be32(b[0], b[1], b[2], b[3]) * 0x1_0000_0000 + codec::be32(b[4], b[5], b[6], b[7])
}

/// Bytes under a mask of four bytes; masking twice gives them back.
pub open spec fn masked(p: Seq<u8>, mask: Seq<u8>) -> Seq<u8> {
    Seq::new(p.len(), |i: int| p[i] ^ mask[i % 4])
}

/// The head of a frame: where its mask or data begins, and how long the data
/// is; none where it is not whole.
pub open spec fn frame_length(b: Seq<u8>) -> Option<(int, int)> {
    if b.len() < 2 {
        None
    } else {
        let n = b[1] as int % 128;
        if n == 126 {
            if b.len() < 4 {
                None
            } else {
                Some((4, codec::be16(b[2], b[3])))
            }
        } else if n == 127 {
            if b.len() < 10 {
                None
            } else {
                Some((10, be64(b.subrange(2, 10))))
            }
        } else {
            Some((2, n))
        }
    }
}

/// The first frame of bytes: how many it takes and what it carries; none where
/// it is not whole.
pub open spec fn frame_of(b: Seq<u8>) -> Option<(int, WsView)> {
    match frame_length(b) {
        None => None,
        Some((at, n)) => {
            let has_mask = b[1] >= 128;
            let off = if has_mask {
                at + 4
            } else {
                at
            };
            if b.len() < off + n {
                None
            } else {
                let data = b.subrange(off, off + n);
                let p = if has_mask {
                    masked(data, b.subrange(at, at + 4))
                } else {
                    data
                };
                let op = b[0] as int % 16;
                Some(
                    (
                        off + n,
                        if op == 8 {
                            WsView::Close
                        } else if op == 9 || op == 10 {
                            WsView::Skip
                        } else {
                            WsView::Payload(p)
                        },
                    ),
                )
            }
        },
    }
}

fn apply_mask(p: &[u8], mask: [u8; 4]) -> (r: Vec<u8>)
    ensures
        r@ == masked(p@, mask@),
{
    let n: usize = p.len();
    let mut r: Vec<u8> = Vec::new();
    let mut i: usize = 0;
    while i < n
        invariant
            i <= n == p@.len(),
            r@ =~= masked(p@.take(i as int), mask@),
        decreases n - i,
    {
        let m: u8 = mask[i % 4];
        r.push(p[i] ^ m);
        i += 1;
    }
    assert(p@.take(n as int) =~= p@);
    r
}

fn read_be64(b: &[u8], at: usize) -> (r: u64)
    requires
        at + 8 <= b@.len(),
    ensures
        r == be64(b@.subrange(at as int, at + 8)),
{
    let total: usize = b.len();
    let hi: u32 = codec::read_be32(b[at], b[at + 1], b[at + 2], b[at + 3]);
    let lo: u32 = codec::read_be32(b[at + 4], b[at + 5], b[at + 6], b[at + 7]);
    hi as u64 * 0x1_0000_0000 + lo as u64
}

fn read_frame_length(b: &[u8]) -> (r: Option<(usize, u64)>)
    ensures
        (match r {
            Some((at, n)) => Some((at as int, n as int)),
            None => None,
        }) == frame_length(b@),
        r is Some ==> (r->0).0 <= 10 && b@.len() >= 2,
{
    if b.len() < 2 {
        return None;
    }
    let n: u8 = b[1] % 128;
    if n == 126 {
        if b.len() < 4 {
            return None;
        }
        Some((4, codec::read_be16(b[2], b[3]) as u64))
    } else if n == 127 {
        if b.len() < 10 {
            return None;
        }
        Some((10, read_be64(b, 2)))
    } else {
        Some((2, n as u64))
    }
}

/// Reads the first frame of bytes.
pub fn parse_ws_frame(buf: &[u8]) -> (r: Result<Option<(usize, WsEvent)>, String>)
    ensures
        r is Ok,
        (match r->Ok_0 {
            Some((n, e)) => Some((n as int, e@)),
            None => None,
        }) == frame_of(buf@),
{
    let total: usize = buf.len();
    let (at, n) = match read_frame_length(buf) {
        Some(x) => x,
        None => {
            return Ok(None);
        },
    };
    let has_mask = buf[1] >= 128;
    let off: usize = if has_mask {
        at + 4
    } else {
        at
    };
    if total < off || ((total - off) as u64) < n {
        return Ok(None);
    }
    let len: usize = n as usize;
    let data = &buf[off..off + len];
    assert(data@ =~= buf@.subrange(off as int, off + len));
    let payload = if has_mask {
        let mask: [u8; 4] = [buf[at], buf[at + 1], buf[at + 2], buf[at + 3]];
        assert(mask@ =~= buf@.subrange(at as int, at + 4));
        apply_mask(data, mask)
    } else {
        codec::copy(data)
    };
    let op: u8 = buf[0] % 16;
    let event = if op == 8 {
        WsEvent::Close
    } else if op == 9 || op == 10 {
        WsEvent::Skip
    } else {
        WsEvent::Payload(payload)
    };
    Ok(Some((off + len, event)))
}

/// The length field of a masked frame.
pub open spec fn length_field(n: int) -> Seq<u8> {
    if n < 126 {
        seq![(128 + n) as u8]
    } else if n <= 65535 {
        seq![254u8] + codec::be16_bytes(n)
    } else {
        seq![255u8] + codec::be32_bytes(n / 0x1_0000_0000) + codec::be32_bytes(n % 0x1_0000_0000)
    }
}

/// A frame of a client: binary data under a mask.
pub open spec fn client_frame(p: Seq<u8>, mask: Seq<u8>) -> Seq<u8> {
    seq![0x82u8] + length_field(p.len() as int) + mask + masked(p, mask)
}

/// Frames data under the given mask.
pub fn encode_masked_frame(payload: &[u8], mask: [u8; 4]) -> (r: Vec<u8>)
    ensures
        r@ == client_frame(payload@, mask@),
{
    let n: usize = payload.len();
    let mut f: Vec<u8> = Vec::new();
    f.push(0x82);
    if n < 126 {
        f.push(128 + n as u8);
    } else if n <= 65535 {
        f.push(254);
        codec::push_be16(&mut f, n as u16);
    } else {
        f.push(255);
        let m: u64 = n as u64;
        codec::push_be32(&mut f, (m / 0x1_0000_0000) as u32);
        codec::push_be32(&mut f, (m % 0x1_0000_0000) as u32);
    }
    assert(f@ =~= seq![0x82u8] + length_field(n as int));
    codec::append(&mut f, mask.as_slice());
    let d = apply_mask(payload, mask);
    codec::append(&mut f, d.as_slice());
    f
}

/// Frames data under a random mask.
pub fn encode_client_binary_frame(payload: &[u8]) -> (r: Vec<u8>)
    ensures
        exists|mask: Seq<u8>| mask.len() == 4 && r@ == #[trigger] client_frame(payload@, mask),
{
    let b = random::random_bytes(4);
    let mask: [u8; 4] = [b[0], b[1], b[2], b[3]];
    assert(mask@.len() == 4);
    encode_masked_frame(payload, mask)
}

// ---- the WebSocket stream ----
pub const MAX_EMPTY_FRAMES: u32 = 64;

/// What the frames that were read lead to.
pub enum FramesView {
    Payload(Seq<u8>),
    Close,
    /// Too many frames without data in a row.
    Empty,
    More,
}

/// Takes frames until one carries data, ends the stream, or none is whole: what
/// is left, how many empty ones there were in a row, and what was found.
pub open spec fn take_frames(rx: Seq<u8>, empty: nat) -> (Seq<u8>, nat, FramesView)
    decreases rx.len(),
    via take_frames_decreases
{
    match frame_of(rx) {
        None => (rx, empty, FramesView::More),
        Some((n, e)) => {
            let rest = rx.skip(n);
            match e {
                WsView::Close => (rest, empty, FramesView::Close),
                WsView::Skip => take_frames(rest, empty),
                WsView::Payload(p) => if p.len() > 0 {
                    (rest, 0, FramesView::Payload(p))
                } else if empty + 1 > MAX_EMPTY_FRAMES {
                    (rest, empty + 1, FramesView::Empty)
                } else {
                    take_frames(rest, empty + 1)
                },
            }
        },
    }
}

#[via_fn]
proof fn take_frames_decreases(rx: Seq<u8>, empty: nat) {
    lemma_frame_taken(rx);
}

proof fn lemma_frame_taken(b: Seq<u8>)
    ensures
        match frame_of(b) {
            Some((n, _)) => 2 <= n <= b.len(),
            None => true,
        },
{
}

/// What reading a WebSocket gives.
#[derive(Debug)]
pub enum WsRead {
    Data(Vec<u8>),
    /// The stream ended.
    End,
    /// More has to be read.
    More,
    Fail(String),
}

/// A WebSocket: what was read and is not framed yet, the data of a frame that is
/// being read, and a frame that is being written.
#[derive(Debug)]
pub struct WebSocketStream {
    pub rx: Vec<u8>,
    pub decoded: Vec<u8>,
    pub empty_frames: u32,
    pub out: Outgoing,
}

impl WebSocketStream {
    pub open spec fn wf(self) -> bool {
        self.out.wf() && self.empty_frames <= MAX_EMPTY_FRAMES + 1
    }

    /// A WebSocket; what came behind the answer to the upgrade is its beginning.
    pub fn new(leftover: Vec<u8>) -> (r: Self)
        ensures
            r.wf(),
            r.rx@ == leftover@,
            r.decoded@.len() == 0,
            r.empty_frames == 0,
            r.out.frame@.len() == 0,
    {
        WebSocketStream {
            rx: leftover,
            decoded: Vec::new(),
            empty_frames: 0,
            out: Outgoing::new(),
        }
    }

    /// Takes bytes of the stream below.
    pub fn feed(&mut self, b: &[u8])
        ensures
            final(self).rx@ == old(self).rx@ + b@,
            final(self).decoded == old(self).decoded,
            final(self).empty_frames == old(self).empty_frames,
            final(self).out == old(self).out,
    {
        codec::append(&mut self.rx, b);
    }

    fn next_frames(&mut self) -> (r: Option<WsEvent>)
        requires
            old(self).empty_frames <= MAX_EMPTY_FRAMES,
        ensures
            final(self).out == old(self).out,
            final(self).decoded == old(self).decoded,
            ({
                let (rx, empty, f) = take_frames(old(self).rx@, old(self).empty_frames as nat);
                &&& final(self).rx@ == rx
                &&& final(self).empty_frames == empty
                &&& match f {
                    FramesView::Payload(p) => r is Some && r->0@ == WsView::Payload(p) && p.len()
                        > 0,
                    FramesView::Close => r is Some && r->0@ == WsView::Close,
                    FramesView::Empty => r is Some && r->0@ == WsView::Skip,
                    FramesView::More => r is None,
                }
            }),
            r is None ==> final(self).empty_frames <= MAX_EMPTY_FRAMES,
            final(self).empty_frames <= MAX_EMPTY_FRAMES + 1,
    {
        let ghost want = take_frames(self.rx@, self.empty_frames as nat);
        loop
            invariant
                self.out == old(self).out,
                self.decoded == old(self).decoded,
                self.empty_frames <= MAX_EMPTY_FRAMES,
                want == take_frames(old(self).rx@, old(self).empty_frames as nat),
                want == take_frames(self.rx@, self.empty_frames as nat),
            decreases self.rx@.len(),
        {
            proof {
                lemma_frame_taken(self.rx@);
            }
            match parse_ws_frame(self.rx.as_slice()) {
                Ok(Some((n, e))) => {
                    let _gone = codec::take_front(&mut self.rx, n);
                    match e {
                        WsEvent::Close => {
                            return Some(WsEvent::Close);
                        },
                        WsEvent::Skip => {},
                        WsEvent::Payload(p) => {
                            if p.len() > 0 {
                                self.empty_frames = 0;
                                return Some(WsEvent::Payload(p));
                            }
                            self.empty_frames = self.empty_frames + 1;
                            if self.empty_frames > MAX_EMPTY_FRAMES {
                                return Some(WsEvent::Skip);
                            }
                        },
                    }
                },
                _ => {
                    return None;
                },
            }
        }
    }

    /// Reads at most `max` bytes of data.
    pub fn read(&mut self, max: usize) -> (r: WsRead)
        requires
            old(self).wf(),
        ensures
            final(self).wf(),
            final(self).out == old(self).out,
            if old(self).decoded@.len() > 0 {
                r is Data && r->Data_0@ == outgoing::at_most(old(self).decoded@, max as int)
                    && final(self).decoded@ == old(self).decoded@.skip(r->Data_0@.len() as int)
                    && final(self).rx == old(self).rx && final(self).empty_frames == old(
                    self
                ).empty_frames
            } else {
                let (rx, empty, f) = take_frames(
                    old(self).rx@,
                    if old(self).empty_frames <= MAX_EMPTY_FRAMES {
                        old(self).empty_frames as nat
                    } else {
                        MAX_EMPTY_FRAMES as nat
                    },
                );
                &&& final(self).rx@ == rx
                &&& final(self).empty_frames == empty
                &&& match f {
                    FramesView::Payload(p) => r is Data && r->Data_0@ == outgoing::at_most(
                        p,
                        max as int,
                    ) && final(self).decoded@ == p.skip(r->Data_0@.len() as int),
                    FramesView::Close => r is End && final(self).decoded@.len() == 0,
                    FramesView::Empty => r is Fail && r->Fail_0@
                        == "The WebSocket peer sent 64 consecutive frames carrying no data."@
                        && final(self).decoded@.len() == 0,
                    FramesView::More => r is More && final(self).decoded@.len() == 0,
                }
            },
    {
        if self.decoded.len() == 0 {
            if self.empty_frames > MAX_EMPTY_FRAMES {
                self.empty_frames = MAX_EMPTY_FRAMES;
            }
            match self.next_frames() {
                None => {
                    return WsRead::More;
                },
                Some(WsEvent::Close) => {
                    return WsRead::End;
                },
                Some(WsEvent::Skip) => {
                    return WsRead::Fail(
                        "The WebSocket peer sent 64 consecutive frames carrying no data.".to_owned(),
                    );
                },
                Some(WsEvent::Payload(p)) => {
                    self.decoded = p;
                },
            }
        }
        let b = outgoing::take_some(&mut self.decoded, max);
        WsRead::Data(b)
    }

    /// Begins to write data: a frame that is being written goes first.
    pub fn begin_write(&mut self, data: &[u8])
        requires
            old(self).wf(),
        ensures
            final(self).wf(),
            final(self).rx == old(self).rx,
            final(self).decoded == old(self).decoded,
            final(self).empty_frames == old(self).empty_frames,
            if old(self).out.frame@.len() > 0 || data@.len() == 0 {
                final(self).out == old(self).out
            } else {
                &&& final(self).out.carries == data@.len()
                &&& exists|mask: Seq<u8>|
                    mask.len() == 4 && final(self).out.left() == #[trigger] client_frame(
                        data@,
                        mask,
                    )
            },
    {
        if self.out.is_idle() && data.len() > 0 {
            let f = encode_client_binary_frame(data);
            self.out.begin(f, data.len());
        }
    }
}

// ---- laws ----
/// Masking twice gives the bytes back.
pub proof fn law_masking_is_undone(p: Seq<u8>, mask: Seq<u8>)
    requires
        mask.len() == 4,
    ensures
        masked(masked(p, mask), mask) == p,
{
    assert forall|i: int| 0 <= i < p.len() implies masked(masked(p, mask), mask)[i] == p[i] by {
        let a = p[i];
        let m = mask[i % 4];
        assert((a ^ m) ^ m == a) by (bit_vector);
    }
    assert(masked(masked(p, mask), mask) =~= p);
}

/// A frame is read back as the data it was made of, whatever its mask, and
/// whatever comes behind it.
pub proof fn law_frame_reads_back(p: Seq<u8>, mask: Seq<u8>, rest: Seq<u8>)
    requires
        mask.len() == 4,
        p.len() <= 0xffff_ffff_ffff_ffff,
    ensures
        frame_of(client_frame(p, mask) + rest) == Some(
            (client_frame(p, mask).len() as int, WsView::Payload(p)),
        ),
{
    let f = client_frame(p, mask);
    let b = f + rest;
    let n = p.len() as int;
    let l = length_field(n);
    let at = 1 + l.len() as int;
    law_masking_is_undone(p, mask);
    assert(b[0] == 0x82);
    assert forall|i: int| 0 <= i < l.len() implies b[1 + i] == l[i] by {
        assert(b[1 + i] == f[1 + i]);
    }
    assert(b[1] == l[0]);
    if n < 126 {
    } else if n <= 65535 {
        codec::law_be16_reads_back(n);
        assert(l[1] == codec::be16_bytes(n)[0] && l[2] == codec::be16_bytes(n)[1]);
        assert(b[2] == l[1] && b[3] == l[2]);
    } else {
        let hi = n / 0x1_0000_0000;
        let lo = n % 0x1_0000_0000;
        codec::law_be32_reads_back(hi);
        codec::law_be32_reads_back(lo);
        let h = codec::be32_bytes(hi);
        let w = codec::be32_bytes(lo);
        assert(b.subrange(2, 10) =~= h + w);
        let e = h + w;
        assert(e[0] == h[0] && e[1] == h[1] && e[2] == h[2] && e[3] == h[3]);
        assert(e[4] == w[0] && e[5] == w[1] && e[6] == w[2] && e[7] == w[3]);
        assert(be64(b.subrange(2, 10)) == n);
    }
    assert(frame_length(b) == Some((at, n)));
    assert(b.subrange(at, at + 4) =~= mask);
    assert(b.subrange(at + 4, at + 4 + n) =~= masked(p, mask));
}

/// The transports by their names, in any letter case; none is plain TCP.
pub proof fn law_transport_names(name: Seq<char>)
    ensures
        ({
            let t = text::lowered(name);
            let k = transport_of(name);
            &&& (name.len() == 0 || t == "tcp"@ || t == "raw"@ ==> k == TransportKind::RawTcp)
            &&& (t == "ws"@ || t == "websocket"@ ==> k == TransportKind::WebSocket)
            &&& (t == "httpupgrade"@ ==> k == TransportKind::HttpUpgrade)
            &&& (k != TransportKind::Unsupported ==> name.len() == 0 || t == "tcp"@ || t == "raw"@
                || t == "ws"@ || t == "websocket"@ || t == "httpupgrade"@)
        }),
{
    reveal_strlit("tcp");
    reveal_strlit("raw");
    reveal_strlit("ws");
    reveal_strlit("websocket");
    reveal_strlit("httpupgrade");
    assert("tcp"@.len() == 3 && "raw"@.len() == 3 && "ws"@.len() == 2);
    assert("websocket"@.len() == 9 && "httpupgrade"@.len() == 11);
    assert(text::lowered(name).len() == name.len());
}

/// A path begins with a slash, which is put before one that does not; nothing else of it
/// changes.
pub proof fn law_path_is_rooted(p: Seq<char>)
    ensures
        rooted(None) == seq!['/'],
        p.len() == 0 ==> rooted(Some(p)) == seq!['/'],
        p.len() > 0 && p[0] == '/' ==> rooted(Some(p)) == p,
        p.len() > 0 && p[0] != '/' ==> rooted(Some(p)) == seq!['/'] + p,
{
    reveal_strlit("/");
    assert("/"@ =~= seq!['/']);
}

/// The host that an upgrade names: the one of the options, else the server name, else the
/// server.
pub proof fn law_host_header(header: Option<Seq<char>>, sni: Option<Seq<char>>, server: Seq<char>)
    ensures
        header is Some && header->0.len() > 0 ==> host_header_of(header, sni, server)
            == header->0,
        header is None && sni is Some && sni->0.len() > 0 ==> host_header_of(header, sni, server)
            == sni->0,
        header is None && sni is None ==> host_header_of(header, sni, server) == server,
{
}

/// The request for an upgrade: a GET of the path, the host, and the two headers that ask
/// for a WebSocket; with a key, it and version 13 too. It ends with an empty line.
pub proof fn law_upgrade_lines(path: Seq<char>, host: Seq<char>, key: Seq<char>)
    ensures
        ({
            let first = "GET "@ + path + " HTTP/1.1\r\nHost: "@ + host
                + "\r\nUpgrade: websocket\r\nConnection: Upgrade\r\n"@;
            &&& upgrade_text(path, host, None) == first + "\r\n"@
            &&& upgrade_text(path, host, Some(key)) == first + ("Sec-WebSocket-Key: "@ + key
                + "\r\nSec-WebSocket-Version: 13\r\n"@) + "\r\n"@
        }),
{
    let first = "GET "@ + path + " HTTP/1.1\r\nHost: "@ + host
        + "\r\nUpgrade: websocket\r\nConnection: Upgrade\r\n"@;
    assert(first + Seq::<char>::empty() =~= first);
}

/// The answer to a key is the Base64 of the SHA-1 of the key and the identifier of
/// WebSockets behind it.
pub proof fn law_accept_of_key(key: Seq<char>)
    ensures
        accept_text(key) == codec::base64_encoded(
            hash::sha1_digest(
                vstd::utf8::encode_utf8(key) + vstd::utf8::encode_utf8(
                    "258EAFA5-E914-47DA-95CA-C5AB0DC85B11"@,
                ),
            ),
        ),
{
}

/// An upgrade is accepted with status 101, and with the answer to the key where one was
/// sent; never otherwise.
pub proof fn law_upgrade_is_judged(header: Seq<u8>, expected: Option<Seq<char>>)
    ensures
        upgrade_fault(header, expected) is None <==> status_of(header) == Some(101int) && (
        expected is None || value_of_header(
            header,
            vstd::utf8::encode_utf8("sec-websocket-accept"@),
        ) == Some(vstd::utf8::encode_utf8(expected->0))),
{
    reveal_strlit("sec-websocket-accept");
    vstd::utf8::is_ascii_chars_encode_utf8("sec-websocket-accept"@);
    assert(vstd::utf8::encode_utf8("sec-websocket-accept"@) =~= accept_name());
}

/// A frame of a client is one whole binary message under a mask: the byte 0x82, the
/// length with the mark of a mask, in one, three or nine bytes, the mask, and the
/// data, each byte under the byte of the mask at its place.
pub proof fn law_frame_layout(p: Seq<u8>, mask: Seq<u8>, i: int)
    requires
        mask.len() == 4,
        0 <= i < p.len(),
    ensures
        ({
            let f = client_frame(p, mask);
            let n = p.len() as int;
            let k: int = if n < 126 {
                2
            } else if n <= 65535 {
                4
            } else {
                10
            };
            &&& f.len() == k + 4 + n
            &&& f[0] == 0x82
            &&& (n < 126 ==> f[1] == 128 + n)
            &&& (126 <= n <= 65535 ==> f[1] == 254 && f[2] * 256 + f[3] == n)
            &&& (n > 65535 ==> f[1] == 255)
            &&& f.subrange(k, k + 4) == mask
            &&& f[k + 4 + i] == p[i] ^ mask[i % 4]
        }),
{
    let f = client_frame(p, mask);
    let n = p.len() as int;
    let k = 1 + length_field(n).len() as int;
    if 126 <= n <= 65535 {
        codec::law_high_byte_first(n);
    }
    assert(f.subrange(k, k + 4) =~= mask);
    assert(f[k + 4 + i] == masked(p, mask)[i]);
}

/// A short frame of a server: its length stands in the second byte, and its data behind it.
/// The low four bits of the first byte say what it is: a close, a ping or a pong, or data.
pub proof fn law_server_frame(op: u8, p: Seq<u8>, rest: Seq<u8>)
    requires
        p.len() < 126,
        op < 16,
    ensures
        ({
            let b = seq![(128 + op) as u8, p.len() as u8] + p + rest;
            let n = 2 + p.len() as int;
            &&& op == 8 ==> frame_of(b) == Some((n, WsView::Close))
            &&& op == 9 || op == 10 ==> frame_of(b) == Some((n, WsView::Skip))
            &&& op == 1 || op == 2 || op == 0 ==> frame_of(b) == Some((n, WsView::Payload(p)))
        }),
{
    let b = seq![(128 + op) as u8, p.len() as u8] + p + rest;
    let n = 2 + p.len() as int;
    assert(b[0] == 128 + op && b[1] == p.len());
    assert(b.subrange(2, n) =~= p);
}

/// Frames are taken one by one: data is given on, a ping and a pong are passed over, and a
/// close ends the stream.
pub proof fn law_frames_are_taken(rx: Seq<u8>, n: int, p: Seq<u8>, empty: nat)
    requires
        p.len() > 0,
    ensures
        frame_of(rx) == Some((n, WsView::Payload(p))) ==> take_frames(rx, empty) == (
            rx.skip(n),
            0nat,
            FramesView::Payload(p),
        ),
        frame_of(rx) == Some((n, WsView::Close)) ==> take_frames(rx, empty) == (
            rx.skip(n),
            empty,
            FramesView::Close,
        ),
        frame_of(rx) == Some((n, WsView::Skip)) ==> take_frames(rx, empty) == take_frames(
            rx.skip(n),
            empty,
        ),
        frame_of(rx) is None ==> take_frames(rx, empty) == (rx, empty, FramesView::More),
{
}

proof fn lemma_first_byte(s: Seq<u8>, c: u8, i: int, n: int)
    requires
        0 <= i <= n < s.len(),
        s[n] == c,
        forall|k: int| 0 <= k < n ==> (#[trigger] s[k]) != c,
    ensures
        byte_from(s, c, i) == Some(n),
    decreases n - i,
{
    if i < n {
        lemma_first_byte(s, c, i + 1, n);
    }
}

/// A byte is searched from the front: what stands behind the first one, and before it.
pub proof fn law_bytes_are_cut(a: Seq<u8>, c: u8, b: Seq<u8>)
    requires
        forall|i: int| 0 <= i < a.len() ==> (#[trigger] a[i]) != c,
    ensures
        after_byte(a + seq![c] + b, c) == Some(b),
        before_byte(a + seq![c] + b, c) == a,
        after_byte(a, c) is None,
        before_byte(a, c) == a,
{
    let s = a + seq![c] + b;
    let n = a.len() as int;
    lemma_byte_from(s, c, 0);
    lemma_byte_from(a, c, 0);
    assert(s[n] == c);
    assert forall|i: int| 0 <= i < n implies (#[trigger] s[i]) != c by {
        assert(s[i] == a[i]);
    }
    lemma_first_byte(s, c, 0, n);
    assert(s.take(n) =~= a);
    assert(s.skip(n + 1) =~= b);
}

/// The value of a header stands behind the first colon of its line, without the blanks
/// around it; the name may be in letters of any case. Lines of other names are passed
/// over.
pub proof fn law_header_is_found(
    k: Seq<u8>,
    v: Seq<u8>,
    rest: Seq<u8>,
    name: Seq<u8>,
)
    requires
        k.len() > 0,
        v.len() > 0,
        forall|i: int| 0 <= i < k.len() ==> (#[trigger] k[i]) != 58 && k[i] != 10,
        forall|i: int| 0 <= i < v.len() ==> (#[trigger] v[i]) != 10,
        !is_blank(v[0]) && !is_blank(v.last()),
    ensures
        same_name(k, name) ==> value_from(k + seq![58u8, 32u8] + v + seq![13u8, 10u8] + rest, name)
            == Some(v),
        !same_name(k, name) ==> value_from(
            k + seq![58u8, 32u8] + v + seq![13u8, 10u8] + rest,
            name,
        ) == value_from(rest, name),
{
    let line = k + seq![58u8, 32u8] + v;
    let cr = line + seq![13u8];
    let s = k + seq![58u8, 32u8] + v + seq![13u8, 10u8] + rest;
    assert(s =~= cr + seq![10u8] + rest);
    assert forall|i: int| 0 <= i < cr.len() implies (#[trigger] cr[i]) != 10 by {
        if i < k.len() {
            assert(cr[i] == k[i]);
        } else if k.len() + 2 <= i < line.len() {
            assert(cr[i] == v[i - k.len() - 2]);
        }
    }
    law_bytes_are_cut(cr, 10, rest);
    assert(cr.drop_last() =~= line);
    let n = k.len() as int;
    let tail = seq![32u8] + v;
    assert(line =~= k + seq![58u8] + tail);
    assert(line[n] == 58);
    assert forall|i: int| 0 <= i < n implies (#[trigger] line[i]) != 58 by {
        assert(line[i] == k[i]);
    }
    lemma_first_byte(line, 58, 0, n);
    assert(line.take(n) =~= k);
    assert(line.skip(n + 1) =~= tail);
    assert(tail[0] == 32);
    assert(tail.skip(1) =~= v);
    assert(unpadded(v) == v);
    assert(unpadded(tail) == unpadded(tail.skip(1)));
}

} // verus!
