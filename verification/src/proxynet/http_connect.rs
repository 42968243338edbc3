//! HTTP CONNECT: the request to a proxy and its answer.

use vstd::prelude::*;

use crate::codec;
use crate::dns::doh;
use crate::proxynet::error;
use crate::proxynet::error::{ProxyError, ProxyErrorCode};
use crate::proxynet::options::HttpProxyOptions;
use crate::text;

verus! {

/// The longest head of an answer.
pub const MAX_ANSWER: usize = 8192;

/// The authority of a destination; an IPv6 address stands in brackets.
pub open spec fn authority(host: Seq<char>, port: u16) -> Seq<char> {
    if text::has(host, ":"@) {
        "["@ + host + "]:"@ + text::dec(port as nat)
    } else {
        host + ":"@ + text::dec(port as nat)
    }
}

/// The line that names the user, where there is one with a password.
pub open spec fn authorization(user: Option<Seq<char>>, pass: Option<Seq<char>>) -> Seq<char> {
    if user is Some && pass is Some && user->0.len() > 0 {
        "Proxy-Authorization: Basic "@ + codec::base64_encoded(
            vstd::utf8::encode_utf8(user->0 + ":"@ + pass->0),
        ) + "\r\n"@
    } else {
        Seq::empty()
    }
}

pub open spec fn request_text(
    host: Seq<char>,
    port: u16,
    user: Option<Seq<char>>,
    pass: Option<Seq<char>>,
) -> Seq<char> {
    "CONNECT "@ + authority(host, port) + " HTTP/1.1\r\nHost: "@ + authority(host, port) + "\r\n"@
        + authorization(user, pass) + "Proxy-Connection: Keep-Alive\r\n\r\n"@
}

fn format_authority(host: &str, port: u16) -> (r: Vec<char>)
    ensures
        r@ == authority(host@, port),
{
    let c = text::chars_of(host);
    let mut out: Vec<char> = Vec::new();
    if text::contains(c.as_slice(), ":") {
        text::append_str(&mut out, "[");
        text::append(&mut out, c.as_slice());
        text::append_str(&mut out, "]:");
    } else {
        text::append(&mut out, c.as_slice());
        text::append_str(&mut out, ":");
    }
    let d = text::format_dec(port as u64);
    text::append(&mut out, d.as_slice());
    assert(out@ =~= authority(host@, port));
    out
}

/// The request for a connection.
pub fn connect_request(options: &HttpProxyOptions, host: &str, port: u16) -> (r: String)
    ensures
        r@ == request_text(
            host@,
            port,
            text::opt_view(options.username),
            text::opt_view(options.password),
        ),
{
    let hp = format_authority(host, port);
    let mut out = text::chars_of("CONNECT ");
    text::append(&mut out, hp.as_slice());
    text::append_str(&mut out, " HTTP/1.1\r\nHost: ");
    text::append(&mut out, hp.as_slice());
    text::append_str(&mut out, "\r\n");
    let ghost before = out@;
    let ghost line = authorization(
        text::opt_view(options.username),
        text::opt_view(options.password),
    );
    if let (Some(user), Some(pass)) = (&options.username, &options.password) {
        if !user.as_str().is_empty() {
            let mut both = text::chars_of(user.as_str());
            text::append_str(&mut both, ":");
            text::append_str(&mut both, pass.as_str());
            let s = text::string_of(both.as_slice());
            let b = codec::bytes_of(s.as_str());
            let token = codec::base64_encode(b.as_slice());
            text::append_str(&mut out, "Proxy-Authorization: Basic ");
            text::append_str(&mut out, token.as_str());
            text::append_str(&mut out, "\r\n");
        }
    }
    assert(out@ =~= before + line);
    text::append_str(&mut out, "Proxy-Connection: Keep-Alive\r\n\r\n");
    text::string_of(out.as_slice())
}

/// What the bytes of an answer are so far.
#[derive(Debug)]
pub enum ConnectStep {
    /// One more byte is read.
    More,
    Open,
    Fail(ProxyError),
}

/// The first line of a text.
pub open spec fn first_line(s: Seq<char>) -> Seq<char> {
    let l = text::lines_of(s);
    if l.len() > 0 {
        l[0]
    } else {
        Seq::empty()
    }
}

/// Judges the text of an answer's head: its first line says 200.
pub fn judge_answer(head: &str) -> (r: ConnectStep)
    ensures
        if text::has(first_line(head@), " 200"@) {
            r is Open
        } else {
            r is Fail && r->Fail_0.says(
                ProxyErrorCode::InvalidResponse,
                "HTTP CONNECT failed: "@ + first_line(head@),
            )
        },
{
    let c = text::chars_of(head);
    let lines = text::lines(c.as_slice());
    assert(text::texts(lines@).len() == lines@.len());
    let mut status: Vec<char> = Vec::new();
    if lines.len() > 0 {
        text::append(&mut status, lines[0]);
        assert(text::texts(lines@)[0] == lines@[0]@);
    }
    assert(status@ =~= first_line(head@));
    if text::contains(status.as_slice(), " 200") {
        return ConnectStep::Open;
    }
    let mut m = text::chars_of("HTTP CONNECT failed: ");
    text::append(&mut m, status.as_slice());
    ConnectStep::Fail(error::error_of(ProxyErrorCode::InvalidResponse, &m))
}

/// Takes what was read of an answer.
pub fn read_answer(buf: &[u8]) -> (r: ConnectStep)
    ensures
        if doh::blank_line_from(buf@, 0) is Some {
            let line = first_line(codec::utf8_text(buf@));
            if text::has(line, " 200"@) {
                r is Open
            } else {
                r is Fail && r->Fail_0.says(
                    ProxyErrorCode::InvalidResponse,
                    "HTTP CONNECT failed: "@ + line,
                )
            }
        } else if buf@.len() > MAX_ANSWER {
            r is Fail && r->Fail_0.says(
                ProxyErrorCode::InvalidResponse,
                "HTTP CONNECT response too large"@,
            )
        } else {
            r is More
        },
{
    if doh::find_blank_line(buf).is_some() {
        let head = codec::utf8_lossy(buf);
        return judge_answer(head.as_str());
    }
    if buf.len() > MAX_ANSWER {
        return ConnectStep::Fail(
            ProxyError::new(ProxyErrorCode::InvalidResponse, "HTTP CONNECT response too large"),
        );
    }
    ConnectStep::More
}

// ---- laws ----
/// A request asks for host and port, names them again as the host, and keeps the
/// connection; a user with a password is named in Base64. A host with a colon stands in
/// brackets.
pub proof fn law_request_lines(
    host: Seq<char>,
    port: u16,
    user: Option<Seq<char>>,
    pass: Option<Seq<char>>,
)
    ensures
        ({
            let a = if text::has(host, ":"@) {
                "["@ + host + "]:"@ + text::dec(port as nat)
            } else {
                host + ":"@ + text::dec(port as nat)
            };
            let first = "CONNECT "@ + a + " HTTP/1.1\r\nHost: "@ + a + "\r\n"@;
            let last = "Proxy-Connection: Keep-Alive\r\n\r\n"@;
            let named = "Proxy-Authorization: Basic "@ + codec::base64_encoded(
                vstd::utf8::encode_utf8(user->0 + ":"@ + pass->0),
            ) + "\r\n"@;
            &&& (user is None || pass is None || user->0.len() == 0 ==> request_text(
                host,
                port,
                user,
                pass,
            ) == first + last)
            &&& (user is Some && pass is Some && user->0.len() > 0 ==> request_text(
                host,
                port,
                user,
                pass,
            ) == first + named + last)
        }),
{
    let a = authority(host, port);
    let first = "CONNECT "@ + a + " HTTP/1.1\r\nHost: "@ + a + "\r\n"@;
    assert(first + Seq::<char>::empty() =~= first);
}

} // verus!
