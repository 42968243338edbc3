//! The inbound HTTP proxy: requests, what is answered and what is forwarded.

use vstd::prelude::*;

use crate::codec;
use crate::config::link;
use crate::config::link::{Link, LinkView};
use crate::dns::doh;
use crate::rules;
use crate::rules::RuleAction;
use crate::text;

verus! {

/// The port that the proxy listens on.
pub const INBOUND_PORT: u16 = 7887;

/// How many clients are served at a time.
pub const MAX_CLIENTS: usize = 256;

/// The longest head of a request.
pub const MAX_HEAD: usize = 65536;

/// How many bytes a client may send before its tunnel is there.
pub const MAX_EARLY: usize = 262144;

// ---- requests ----
/// A request: its method, its target, its headers and what follows the head.
#[derive(Debug)]
pub struct HttpRequest {
    pub method: String,
    pub target: String,
    pub headers: Vec<(String, String)>,
    pub leftover: Vec<u8>,
}

pub open spec fn header_views(v: Seq<(String, String)>) -> Seq<(Seq<char>, Seq<char>)> {
    Seq::new(v.len(), |i: int| (v[i].0@, v[i].1@))
}

/// Up to three pieces between spaces; the third holds the rest.
pub open spec fn three_pieces(s: Seq<char>) -> Seq<Seq<char>> {
    match text::cut(s, ' ') {
        None => seq![s],
        Some((a, b)) => match text::cut(b, ' ') {
            None => seq![a, b],
            Some((c, d)) => seq![a, c, d],
        },
    }
}

pub open spec fn nonempty(v: Seq<Seq<char>>) -> Seq<Seq<char>> {
    v.filter(|s: Seq<char>| s.len() > 0)
}

/// A piece by its position, empty where there is none.
pub open spec fn piece(v: Seq<Seq<char>>, i: int) -> Seq<char> {
    if i < v.len() {
        v[i]
    } else {
        Seq::empty()
    }
}

/// The position of the first header with a name, from `i` on; the case of the
/// name does not count.
pub open spec fn header_at(
    h: Seq<(Seq<char>, Seq<char>)>,
    name: Seq<char>,
    i: int,
) -> Option<int>
    decreases h.len() - i,
{
    if i >= h.len() {
        None
    } else if text::same_nocase(h[i].0, name) {
        Some(i)
    } else {
        header_at(h, name, i + 1)
    }
}

/// Headers with one more line: a second cookie header is joined to the first.
pub open spec fn with_line(
    h: Seq<(Seq<char>, Seq<char>)>,
    line: Seq<char>,
) -> Seq<(Seq<char>, Seq<char>)> {
    match text::cut(line, ':') {
        None => h,
        Some((k, v)) => {
            let name = text::trimmed(k);
            let value = text::trimmed(v);
            let first = header_at(h, "Cookie"@, 0);
            if text::same_nocase(name, "Cookie"@) && first is Some {
                h.update(first->0, (h[first->0].0, h[first->0].1 + "; "@ + value))
            } else {
                h.push((name, value))
            }
        },
    }
}

pub open spec fn headers_of(lines: Seq<Seq<char>>) -> Seq<(Seq<char>, Seq<char>)>
    decreases lines.len(),
{
    if lines.len() == 0 {
        Seq::empty()
    } else {
        with_line(headers_of(lines.drop_last()), lines.last())
    }
}

/// What has been read of a request.
#[derive(Debug)]
pub enum ReadStep {
    /// The head is not whole yet.
    More,
    Bad(String),
    Request(HttpRequest),
}

/// What the head of a request is found to be.
pub enum HeadView {
    More,
    Bad(Seq<char>),
    Request {
        method: Seq<char>,
        target: Seq<char>,
        headers: Seq<(Seq<char>, Seq<char>)>,
        leftover: Seq<u8>,
    },
}

/// The head of a request with the given text.
pub open spec fn head_of(head: Seq<char>, leftover: Seq<u8>) -> HeadView {
    let lines = text::parts(head, "\r\n"@);
    let words = nonempty(three_pieces(lines[0]));
    let method = piece(words, 0);
    let target = piece(words, 1);
    if method.len() == 0 || target.len() == 0 {
        HeadView::Bad("bad request line"@)
    } else {
        HeadView::Request { method, target, headers: headers_of(lines.skip(1)), leftover }
    }
}

/// What the bytes of a request are so far: the head ends with an empty line,
/// and may not be too long.
pub open spec fn request_of(ms: Seq<u8>) -> HeadView {
    match doh::blank_line_from(ms, 0) {
        Some(i) => if i > MAX_HEAD {
            HeadView::Bad("headers too large"@)
        } else {
            head_of(codec::utf8_text(ms.take(i)), ms.skip(i + 4))
        },
        None => if ms.len() > MAX_HEAD {
            HeadView::Bad("headers too large"@)
        } else {
            HeadView::More
        },
    }
}

pub open spec fn step_view(s: ReadStep) -> HeadView {
    match s {
        ReadStep::More => HeadView::More,
        ReadStep::Bad(m) => HeadView::Bad(m@),
        ReadStep::Request(r) => HeadView::Request {
            method: r.method@,
            target: r.target@,
            headers: header_views(r.headers@),
            leftover: r.leftover@,
        },
    }
}

fn request_words<'a>(line: &'a [char]) -> (r: Vec<&'a [char]>)
    ensures
        text::texts(r@) == nonempty(three_pieces(line@)),
{
    let mut all: Vec<&'a [char]> = Vec::new();
    match text::split_once(line, ' ') {
        None => {
            all.push(line);
        },
        Some((a, b)) => {
            all.push(a);
            match text::split_once(b, ' ') {
                None => {
                    all.push(b);
                },
                Some((c, d)) => {
                    all.push(c);
                    all.push(d);
                },
            }
        },
    }
    assert(text::texts(all@) =~= three_pieces(line@));
    keep_nonempty(all)
}

fn keep_nonempty<'a>(all: Vec<&'a [char]>) -> (r: Vec<&'a [char]>)
    ensures
        text::texts(r@) == nonempty(text::texts(all@)),
{
    let ghost vs = text::texts(all@);
    let ghost keep = |s: Seq<char>| s.len() > 0;
    let mut r: Vec<&'a [char]> = Vec::new();
    let mut i: usize = 0;
    proof {
        reveal(Seq::filter);
        assert(text::texts(r@) =~= vs.take(0).filter(keep));
    }
    while i < all.len()
        invariant
            i <= all@.len(),
            vs == text::texts(all@),
            keep == (|s: Seq<char>| s.len() > 0),
            text::texts(r@) == vs.take(i as int).filter(keep),
        decreases all@.len() - i,
    {
        let ghost before = text::texts(r@);
        proof {
            assert(vs.take(i + 1).drop_last() =~= vs.take(i as int));
            assert(vs.take(i + 1).last() == all@[i as int]@);
            reveal(Seq::filter);
        }
        if all[i].len() > 0 {
            r.push(all[i]);
            assert(text::texts(r@) =~= before.push(all@[i as int]@));
        }
        i += 1;
    }
    assert(vs.take(i as int) =~= vs);
    r
}

fn find_header(h: &[(String, String)], name: &str) -> (r: Option<usize>)
    ensures
        match r {
            Some(i) => header_at(header_views(h@), name@, 0) == Some(i as int) && i < h@.len(),
            None => header_at(header_views(h@), name@, 0) is None,
        },
{
    let ghost hs = header_views(h@);
    let mut i: usize = 0;
    while i < h.len()
        invariant
            i <= h@.len(),
            hs == header_views(h@),
            header_at(hs, name@, 0) == header_at(hs, name@, i as int),
        decreases h@.len() - i,
    {
        let c = text::chars_of(h[i].0.as_str());
        assert(hs[i as int].0 == c@);
        if text::is_nocase(c.as_slice(), name) {
            return Some(i);
        }
        i += 1;
    }
    None
}

fn add_header_line(h: &mut Vec<(String, String)>, line: &[char])
    ensures
        header_views(final(h)@) == with_line(header_views(old(h)@), line@),
{
    let ghost before = header_views(h@);
    if let Some((k, v)) = text::split_once(line, ':') {
        let name = text::trim(k);
        let value = text::trim(v);
        if text::is_nocase(name, "Cookie") {
            if let Some(i) = find_header(h.as_slice(), "Cookie") {
                let mut joined = text::chars_of(h[i].1.as_str());
                text::append_str(&mut joined, "; ");
                text::append(&mut joined, value);
                let key = h[i].0.clone();
                let joined = text::string_of(joined.as_slice());
                proof {
                    assert(joined@ =~= before[i as int].1 + "; "@ + value@);
                }
                h[i] = (key, joined);
                assert(header_views(h@) =~= before.update(i as int, (key@, joined@)));
                return;
            }
        }
        let name = text::string_of(name);
        let value = text::string_of(value);
        h.push((name, value));
        assert(header_views(h@) =~= before.push((name@, value@)));
    }
}

/// Reads the text of a head.
pub fn parse_head(head: &str, leftover: Vec<u8>) -> (r: ReadStep)
    ensures
        step_view(r) == head_of(head@, leftover@),
{
    let c = text::chars_of(head);
    proof {
        reveal_strlit("\r\n");
    }
    let lines = text::split_str(c.as_slice(), "\r\n");
    let ghost ls = text::texts(lines@);
    let words = request_words(lines[0]);
    let ghost ws = text::texts(words@);
    assert(ls[0] == lines@[0]@);
    if words.len() < 2 {
        proof {
            assert(ws.len() == words@.len());
        }
        return ReadStep::Bad("bad request line".to_owned());
    }
    proof {
        assert(ws[0] == words@[0]@ && ws[1] == words@[1]@);
        lemma_nonempty(three_pieces(lines@[0]@), 0);
        lemma_nonempty(three_pieces(lines@[0]@), 1);
    }
    let method = text::string_of(words[0]);
    let target = text::string_of(words[1]);
    let mut headers: Vec<(String, String)> = Vec::new();
    let mut i: usize = 1;
    let ghost rest = ls.skip(1);
    assert(header_views(headers@) =~= headers_of(rest.take(0)));
    while i < lines.len()
        invariant
            1 <= i <= lines@.len(),
            ls == text::texts(lines@),
            rest == ls.skip(1),
            header_views(headers@) == headers_of(rest.take(i - 1)),
        decreases lines@.len() - i,
    {
        proof {
            assert(rest.take(i as int).drop_last() =~= rest.take(i - 1));
            assert(rest.take(i as int).last() == lines@[i as int]@);
        }
        add_header_line(&mut headers, lines[i]);
        i += 1;
    }
    assert(rest.take(i - 1) =~= rest);
    ReadStep::Request(HttpRequest { method, target, headers, leftover })
}

proof fn lemma_nonempty(v: Seq<Seq<char>>, i: int)
    requires
        0 <= i < nonempty(v).len(),
    ensures
        nonempty(v)[i].len() > 0,
    decreases v.len(),
{
    reveal(Seq::filter);
    if v.len() > 0 {
        let w = v.drop_last();
        if i < nonempty(w).len() {
            lemma_nonempty(w, i);
        }
    }
}

/// Reads the bytes of a request so far.
pub fn read_http_request(ms: &[u8]) -> (r: ReadStep)
    ensures
        step_view(r) == request_of(ms@),
{
    let n: usize = ms.len();
    match doh::find_blank_line(ms) {
        Some(i) => {
            if i > MAX_HEAD {
                return ReadStep::Bad("headers too large".to_owned());
            }
            let head = &ms[0..i];
            let rest = codec::copy(&ms[i + 4..n]);
            assert(head@ =~= ms@.take(i as int));
            assert(rest@ =~= ms@.skip(i + 4));
            let s = codec::utf8_lossy(head);
            parse_head(s.as_str(), rest)
        },
        None => if n > MAX_HEAD {
            ReadStep::Bad("headers too large".to_owned())
        } else {
            ReadStep::More
        },
    }
}

// ---- forwarding ----
/// A path with its query.
pub open spec fn path_query(l: LinkView) -> Seq<char> {
    let p = if l.path.len() == 0 {
        "/"@
    } else {
        l.path
    };
    match l.query {
        Some(q) => p + "?"@ + q,
        None => p,
    }
}

/// Host and port of a link, as in a host header.
pub open spec fn link_authority(l: LinkView) -> Option<Seq<char>> {
    match l.host {
        Some(h) => Some(
            match l.port {
                Some(p) => h + ":"@ + text::dec(p as nat),
                None => h,
            },
        ),
        None => None,
    }
}

fn path_of(l: &Link) -> (r: String)
    ensures
        r@ == path_query(l@),
{
    let mut p: Vec<char> = text::chars_of(l.path.as_str());
    if p.len() == 0 {
        p = text::chars_of("/");
    }
    let ghost base = p@;
    if let Some(q) = &l.query {
        text::append_str(&mut p, "?");
        text::append_str(&mut p, q.as_str());
        assert(p@ =~= base + "?"@ + q@);
    }
    text::string_of(p.as_slice())
}

fn authority_of(l: &Link) -> (r: Option<String>)
    ensures
        text::opt_view(r) == link_authority(l@),
{
    match &l.host {
        Some(h) => match l.port {
            Some(p) => {
                let mut c = text::chars_of(h.as_str());
                text::append_str(&mut c, ":");
                let d = text::format_dec(p as u64);
                text::append(&mut c, d.as_slice());
                assert(c@ =~= h@ + ":"@ + text::dec(p as nat));
                Some(text::string_of(c.as_slice()))
            },
            None => Some(h.clone()),
        },
        None => None,
    }
}

/// Host header and path of a request to a link.
pub open spec fn link_forward(l: Option<LinkView>) -> Option<(Seq<char>, Seq<char>)> {
    match l {
        Some(l) => match link_authority(l) {
            Some(a) => Some((a, path_query(l))),
            None => None,
        },
        None => None,
    }
}

pub fn forward_of_link(l: &Option<Link>) -> (r: Option<(String, String)>)
    ensures
        (match r {
            Some((h, p)) => Some((h@, p@)),
            None => None,
        }) == link_forward(
            match *l {
                Some(x) => Some(x@),
                None => None,
            },
        ),
{
    match l {
        Some(l) => match authority_of(l) {
            Some(a) => Some((a, path_of(l))),
            None => None,
        },
        None => None,
    }
}

/// Host header and path of a forwarded request: an absolute target names both;
/// else the host header has to be there.
pub open spec fn forward_parts(
    target: Seq<char>,
    headers: Seq<(Seq<char>, Seq<char>)>,
) -> Option<(Seq<char>, Seq<char>)> {
    if text::starts(text::lowered(target), "http://"@) {
        link_forward(link::url_parts(target))
    } else {
        match header_at(headers, "Host"@, 0) {
            Some(i) => if headers[i].1.len() > 0 {
                Some(
                    (
                        headers[i].1,
                        if text::starts(target, "/"@) {
                            target
                        } else {
                            "/"@ + target
                        },
                    ),
                )
            } else {
                None
            },
            None => None,
        }
    }
}

pub fn forward_target(target: &str, headers: &[(String, String)]) -> (r: Option<(String, String)>)
    ensures
        (match r {
            Some((h, p)) => Some((h@, p@)),
            None => None,
        }) == forward_parts(target@, header_views(headers@)),
{
    let c = text::chars_of(target);
    let low = text::lower(c.as_slice());
    if text::starts_with(low.as_slice(), "http://") {
        let l = link::parse_link(target);
        return forward_of_link(&l);
    }
    match find_header(headers, "Host") {
        Some(i) => {
            let host = headers[i].1.clone();
            if host.as_str().is_empty() {
                return None;
            }
            if text::starts_with(c.as_slice(), "/") {
                Some((host, target.to_owned()))
            } else {
                let mut p = text::chars_of("/");
                text::append_str(&mut p, target);
                Some((host, text::string_of(p.as_slice())))
            }
        },
        None => None,
    }
}

/// Headers that belong to one connection and are not forwarded.
pub open spec fn is_hop_header(name: Seq<char>) -> bool {
    text::same_nocase(name, "host"@) || text::same_nocase(name, "connection"@)
        || text::same_nocase(name, "keep-alive"@) || text::same_nocase(name, "proxy-authenticate"@)
        || text::same_nocase(name, "proxy-authorization"@) || text::same_nocase(name, "te"@)
        || text::same_nocase(name, "trailer"@) || text::same_nocase(name, "trailers"@)
        || text::same_nocase(name, "transfer-encoding"@) || text::same_nocase(name, "upgrade"@)
        || text::same_nocase(name, "proxy-connection"@)
}

fn hop_header(name: &[char]) -> (r: bool)
    ensures
        r == is_hop_header(name@),
{
    text::is_nocase(name, "host") || text::is_nocase(name, "connection") || text::is_nocase(
        name,
        "keep-alive",
    ) || text::is_nocase(name, "proxy-authenticate") || text::is_nocase(
        name,
        "proxy-authorization",
    ) || text::is_nocase(name, "te") || text::is_nocase(name, "trailer") || text::is_nocase(
        name,
        "trailers",
    ) || text::is_nocase(name, "transfer-encoding") || text::is_nocase(name, "upgrade")
        || text::is_nocase(name, "proxy-connection")
}

/// One header line.
pub open spec fn header_line(k: Seq<char>, v: Seq<char>) -> Seq<char> {
    k + ": "@ + v + "\r\n"@
}

/// The lines of the headers that are forwarded.
pub open spec fn kept_lines(h: Seq<(Seq<char>, Seq<char>)>) -> Seq<char>
    decreases h.len(),
{
    if h.len() == 0 {
        Seq::empty()
    } else if is_hop_header(h.last().0) {
        kept_lines(h.drop_last())
    } else {
        kept_lines(h.drop_last()) + header_line(h.last().0, h.last().1)
    }
}

/// The head of a forwarded request: the connection is closed behind it.
pub open spec fn forward_head(
    method: Seq<char>,
    path: Seq<char>,
    host: Seq<char>,
    headers: Seq<(Seq<char>, Seq<char>)>,
) -> Seq<char> {
    method + " "@ + path + " HTTP/1.1\r\nHost: "@ + host + "\r\n"@ + kept_lines(headers)
        + "Connection: close\r\n\r\n"@
}

fn add_line(out: &mut Vec<char>, k: &[char], v: &[char])
    ensures
        final(out)@ == old(out)@ + header_line(k@, v@),
{
    text::append(out, k);
    text::append_str(out, ": ");
    text::append(out, v);
    text::append_str(out, "\r\n");
    assert(out@ =~= old(out)@ + header_line(k@, v@));
}

pub fn rewrite_forward(
    method: &str,
    path: &str,
    host: &str,
    headers: &[(String, String)],
    leftover: &[u8],
) -> (r: Vec<u8>)
    ensures
        r@ == vstd::utf8::encode_utf8(
            forward_head(method@, path@, host@, header_views(headers@)),
        ) + leftover@,
{
    let ghost hs = header_views(headers@);
    let mut out: Vec<char> = Vec::new();
    text::append_str(&mut out, method);
    text::append_str(&mut out, " ");
    text::append_str(&mut out, path);
    text::append_str(&mut out, " HTTP/1.1\r\nHost: ");
    text::append_str(&mut out, host);
    text::append_str(&mut out, "\r\n");
    let ghost start = out@;
    proof {
        assert(start =~= method@ + " "@ + path@ + " HTTP/1.1\r\nHost: "@ + host@ + "\r\n"@);
        assert(out@ =~= start + kept_lines(hs.take(0)));
    }
    let mut i: usize = 0;
    while i < headers.len()
        invariant
            i <= headers@.len(),
            hs == header_views(headers@),
            out@ == start + kept_lines(hs.take(i as int)),
        decreases headers@.len() - i,
    {
        let k = text::chars_of(headers[i].0.as_str());
        let v = text::chars_of(headers[i].1.as_str());
        let ghost before = kept_lines(hs.take(i as int));
        proof {
            assert(hs.take(i + 1).drop_last() =~= hs.take(i as int));
            assert(hs.take(i + 1).last() == (k@, v@));
        }
        if !hop_header(k.as_slice()) {
            add_line(&mut out, k.as_slice(), v.as_slice());
            assert(out@ =~= start + (before + header_line(k@, v@)));
        }
        i += 1;
    }
    assert(hs.take(i as int) =~= hs);
    text::append_str(&mut out, "Connection: close\r\n\r\n");
    assert(out@ =~= forward_head(method@, path@, host@, hs));
    let s = text::string_of(out.as_slice());
    let mut bytes = codec::bytes_of(s.as_str());
    codec::append(&mut bytes, leftover);
    bytes
}

// ---- rewriting a whole request ----
/// The words between white space.
pub open spec fn words_from(s: Seq<char>, i: int, start: int) -> Seq<Seq<char>>
    decreases s.len() - i,
{
    if i >= s.len() {
        if start < s.len() {
            seq![s.subrange(start, s.len() as int)]
        } else {
            Seq::empty()
        }
    } else if text::is_white(s[i]) {
        (if start < i {
            seq![s.subrange(start, i)]
        } else {
            Seq::empty()
        }) + words_from(s, i + 1, i + 1)
    } else {
        words_from(s, i + 1, start)
    }
}

fn split_words<'a>(s: &'a [char]) -> (r: Vec<&'a [char]>)
    ensures
        text::texts(r@) == words_from(s@, 0, 0),
{
    let mut r: Vec<&'a [char]> = Vec::new();
    let mut i: usize = 0;
    let mut start: usize = 0;
    let n: usize = s.len();
    assert(text::texts(r@) + words_from(s@, 0, 0) =~= words_from(s@, 0, 0));
    while i < n
        invariant
            start <= i <= n,
            n == s@.len(),
            words_from(s@, 0, 0) == text::texts(r@) + words_from(s@, i as int, start as int),
        decreases n - i,
    {
        if text::white(s[i]) {
            let ghost before = text::texts(r@);
            if start < i {
                let w = &s[start..i];
                r.push(w);
                assert(text::texts(r@) =~= before.push(w@));
                assert(before + (seq![w@] + words_from(s@, i + 1, i + 1)) =~= text::texts(r@)
                    + words_from(s@, i + 1, i + 1));
            } else {
                assert(Seq::<Seq<char>>::empty() + words_from(s@, i + 1, i + 1) =~= words_from(
                    s@,
                    i + 1,
                    i + 1,
                ));
            }
            start = i + 1;
        }
        i += 1;
    }
    if start < n {
        let ghost before = text::texts(r@);
        let w = &s[start..n];
        r.push(w);
        assert(text::texts(r@) =~= before + seq![w@]);
    } else {
        assert(text::texts(r@) + Seq::<Seq<char>>::empty() =~= text::texts(r@));
    }
    r
}

pub open spec fn word_or(v: Seq<Seq<char>>, i: int, d: Seq<char>) -> Seq<char> {
    if i < v.len() {
        v[i]
    } else {
        d
    }
}

/// Path and host of a request target: an absolute one names both.
pub open spec fn split_target(
    target: Seq<char>,
    l: Option<LinkView>,
) -> (Seq<char>, Option<Seq<char>>) {
    if l is Some && (l->0.scheme == "http"@ || l->0.scheme == "https"@) {
        (path_query(l->0), link_authority(l->0))
    } else {
        (
            if target.len() == 0 {
                "/"@
            } else {
                target
            },
            None,
        )
    }
}

/// The headers of a request from line `i` on, up to an empty line: the host,
/// unless it is known, and the lines that are kept.
pub open spec fn kept_from(
    lines: Seq<Seq<char>>,
    i: int,
    host: Option<Seq<char>>,
    kept: Seq<char>,
) -> (Option<Seq<char>>, Seq<char>, bool)
    decreases lines.len() - i,
{
    if i >= lines.len() {
        (host, kept, false)
    } else if lines[i].len() == 0 {
        (host, kept, true)
    } else {
        match text::cut(lines[i], ':') {
            None => kept_from(lines, i + 1, host, kept),
            Some((k, v)) => if text::same_nocase(k, "host"@) {
                kept_from(
                    lines,
                    i + 1,
                    if host is None {
                        Some(text::trimmed(v))
                    } else {
                        host
                    },
                    kept,
                )
            } else if is_hop_header(k) {
                kept_from(lines, i + 1, host, kept)
            } else {
                kept_from(
                    lines,
                    i + 1,
                    host,
                    kept + header_line(text::trimmed(k), text::trimmed(v)),
                )
            },
        }
    }
}

/// A request with an origin target, without the headers of one connection.
pub open spec fn rewritten(s: Seq<char>, l: Option<LinkView>) -> Seq<char> {
    let lines = text::parts(s, "\r\n"@);
    let words = words_from(lines[0], 0, 0);
    let (path, host0) = split_target(word_or(words, 1, "/"@), l);
    let (host, kept, ended) = kept_from(lines, 1, host0, Seq::empty());
    let blocks = text::parts(s, "\r\n\r\n"@);
    word_or(words, 0, "GET"@) + " "@ + path + " "@ + word_or(words, 2, "HTTP/1.1"@) + "\r\n"@ + (
    match host {
        Some(h) => "Host: "@ + h + "\r\n"@,
        None => Seq::empty(),
    }) + kept + "Connection: close\r\n\r\n"@ + (if ended && blocks.len() > 1 {
        blocks[1]
    } else {
        Seq::empty()
    })
}

/// The target of a request.
pub open spec fn request_target(s: Seq<char>) -> Seq<char> {
    word_or(words_from(text::parts(s, "\r\n"@)[0], 0, 0), 1, "/"@)
}

fn pick<'a>(v: &Vec<&'a [char]>, i: usize, d: &str) -> (r: Vec<char>)
    ensures
        r@ == word_or(text::texts(v@), i as int, d@),
{
    if i < v.len() {
        let s = text::string_of(v[i]);
        text::chars_of(s.as_str())
    } else {
        text::chars_of(d)
    }
}

fn link_is_web(l: &Link) -> (r: bool)
    ensures
        r == (l@.scheme == "http"@ || l@.scheme == "https"@),
{
    let c = text::chars_of(l.scheme.as_str());
    text::is(c.as_slice(), "http") || text::is(c.as_slice(), "https")
}

/// Rewrites the text of a request whose target is the given link, if any.
pub fn rewrite_text(s: &str, l: &Option<Link>) -> (r: String)
    ensures
        r@ == rewritten(
            s@,
            match *l {
                Some(x) => Some(x@),
                None => None,
            },
        ),
{
    let c = text::chars_of(s);
    proof {
        reveal_strlit("\r\n");
        reveal_strlit("\r\n\r\n");
    }
    let lines = text::split_str(c.as_slice(), "\r\n");
    let ghost ls = text::texts(lines@);
    assert(ls[0] == lines@[0]@);
    let words = split_words(lines[0]);
    let method = pick(&words, 0, "GET");
    let target = pick(&words, 1, "/");
    let version = pick(&words, 2, "HTTP/1.1");
    let mut path: Vec<char> = if target.len() == 0 {
        text::chars_of("/")
    } else {
        let t = text::string_of(target.as_slice());
        text::chars_of(t.as_str())
    };
    let mut host: Option<String> = None;
    if let Some(x) = l {
        if link_is_web(x) {
            let p = path_of(x);
            path = text::chars_of(p.as_str());
            host = authority_of(x);
        }
    }
    let ghost host0 = text::opt_view(host);
    let mut kept: Vec<char> = Vec::new();
    let mut ended: bool = false;
    let mut i: usize = 1;
    assert(kept@ =~= Seq::<char>::empty());
    while i < lines.len() && !ended
        invariant
            1 <= i,
            i <= lines@.len() || ended,
            ls == text::texts(lines@),
            kept_from(ls, 1, host0, Seq::empty()) == (if ended {
                (text::opt_view(host), kept@, true)
            } else {
                kept_from(ls, i as int, text::opt_view(host), kept@)
            }),
        decreases lines@.len() - i,
    {
        let line: &[char] = lines[i];
        assert(ls[i as int] == line@);
        if line.len() == 0 {
            ended = true;
        } else if let Some((k, v)) = text::split_once(line, ':') {
            if text::is_nocase(k, "host") {
                if host.is_none() {
                    host = Some(text::string_of(text::trim(v)));
                }
            } else if !hop_header(k) {
                add_line(&mut kept, text::trim(k), text::trim(v));
            }
        }
        i += 1;
    }
    let mut out: Vec<char> = method;
    let ghost first = out@;
    text::append_str(&mut out, " ");
    text::append(&mut out, path.as_slice());
    text::append_str(&mut out, " ");
    text::append(&mut out, version.as_slice());
    text::append_str(&mut out, "\r\n");
    let ghost line0 = out@;
    let ghost host_line: Seq<char> = match text::opt_view(host) {
        Some(h) => "Host: "@ + h + "\r\n"@,
        None => Seq::empty(),
    };
    if let Some(h) = &host {
        text::append_str(&mut out, "Host: ");
        text::append_str(&mut out, h.as_str());
        text::append_str(&mut out, "\r\n");
    }
    assert(out@ =~= line0 + host_line);
    text::append(&mut out, kept.as_slice());
    text::append_str(&mut out, "Connection: close\r\n\r\n");
    let blocks = text::split_str(c.as_slice(), "\r\n\r\n");
    assert(text::texts(blocks@).len() == blocks@.len());
    let ghost before = out@;
    let ghost body: Seq<char> = if ended && blocks@.len() > 1 {
        text::texts(blocks@)[1]
    } else {
        Seq::empty()
    };
    if ended && blocks.len() > 1 {
        text::append(&mut out, blocks[1]);
    }
    assert(out@ =~= before + body);
    assert(out@ =~= first + " "@ + path@ + " "@ + version@ + "\r\n"@ + host_line + kept@
        + "Connection: close\r\n\r\n"@ + body);
    text::string_of(out.as_slice())
}

/// Rewrites a whole request for its origin server.
pub fn rewrite_http_request(raw: &[u8]) -> (r: Vec<u8>)
    ensures
        ({
            let s = codec::utf8_text(raw@);
            r@ == vstd::utf8::encode_utf8(rewritten(s, link::url_parts(request_target(s))))
        }),
{
    let s = codec::utf8_lossy(raw);
    let c = text::chars_of(s.as_str());
    proof {
        reveal_strlit("\r\n");
    }
    let lines = text::split_str(c.as_slice(), "\r\n");
    assert(text::texts(lines@)[0] == lines@[0]@);
    let words = split_words(lines[0]);
    let target = pick(&words, 1, "/");
    let t = text::string_of(target.as_slice());
    let l = link::parse_link(t.as_str());
    let out = rewrite_text(s.as_str(), &l);
    codec::bytes_of(out.as_str())
}

// ---- what is done with a request ----
/// What is done with a request.
#[derive(Debug)]
pub enum Plan {
    /// An error is answered.
    Refuse(u16, &'static str),
    /// A tunnel is asked for.
    Tunnel { host_port: String },
    /// The request is forwarded.
    Forward { host_port: String, host: String, path: String },
}

/// What is done with a request, over texts.
pub enum PlanView {
    Refuse(u16, Seq<char>),
    Tunnel(Seq<char>),
    Forward(Seq<char>, Seq<char>, Seq<char>),
}

/// CONNECT asks for a tunnel, by default to port 443; other requests are
/// forwarded, by default to port 80, but never to an HTTPS target.
pub open spec fn plan_of(
    method: Seq<char>,
    target: Seq<char>,
    headers: Seq<(Seq<char>, Seq<char>)>,
) -> PlanView {
    if text::same_nocase(method, "CONNECT"@) {
        match rules::ported(target, "443"@) {
            Some(hp) => PlanView::Tunnel(hp),
            None => PlanView::Refuse(400, "Invalid host"@),
        }
    } else if text::starts(text::lowered(target), "https://"@) {
        PlanView::Refuse(400, "HTTPS requires CONNECT"@)
    } else {
        match forward_parts(target, headers) {
            None => PlanView::Refuse(400, "Invalid host"@),
            Some((host, path)) => match rules::ported(host, "80"@) {
                None => PlanView::Refuse(400, "Invalid host"@),
                Some(hp) => PlanView::Forward(hp, host, path),
            },
        }
    }
}

pub open spec fn plan_view(p: Plan) -> PlanView {
    match p {
        Plan::Refuse(s, m) => PlanView::Refuse(s, m@),
        Plan::Tunnel { host_port } => PlanView::Tunnel(host_port@),
        Plan::Forward { host_port, host, path } => PlanView::Forward(host_port@, host@, path@),
    }
}

pub fn plan_request(r: &HttpRequest) -> (p: Plan)
    ensures
        plan_view(p) == plan_of(r.method@, r.target@, header_views(r.headers@)),
{
    let m = text::chars_of(r.method.as_str());
    if text::is_nocase(m.as_slice(), "CONNECT") {
        return match rules::with_port(r.target.as_str(), "443") {
            Some(hp) => Plan::Tunnel { host_port: hp },
            None => Plan::Refuse(400, "Invalid host"),
        };
    }
    let t = text::chars_of(r.target.as_str());
    let low = text::lower(t.as_slice());
    if text::starts_with(low.as_slice(), "https://") {
        return Plan::Refuse(400, "HTTPS requires CONNECT");
    }
    match forward_target(r.target.as_str(), r.headers.as_slice()) {
        None => Plan::Refuse(400, "Invalid host"),
        Some((host, path)) => match rules::with_port(host.as_str(), "80") {
            None => Plan::Refuse(400, "Invalid host"),
            Some(hp) => Plan::Forward { host_port: hp, host, path },
        },
    }
}

/// How a destination is reached.
#[derive(Clone, Copy, Debug, PartialEq, Eq, Structural)]
pub enum Way {
    Direct,
    Proxy,
}

/// The way to a destination; an error answer where rules forbid it.
pub fn way_of(action: RuleAction) -> (r: Result<Way, (u16, &'static str)>)
    ensures
        match action {
            RuleAction::Reject => r is Err && (r->Err_0).0 == 403 && (r->Err_0).1@
                == "Forbidden by rules"@,
            RuleAction::Direct => r == Ok::<Way, (u16, &'static str)>(Way::Direct),
            RuleAction::Proxy => r == Ok::<Way, (u16, &'static str)>(Way::Proxy),
        },
{
    match action {
        RuleAction::Reject => Err((403, "Forbidden by rules")),
        RuleAction::Direct => Ok(Way::Direct),
        RuleAction::Proxy => Ok(Way::Proxy),
    }
}

// ---- tunnels ----
/// What happened while the destination of a tunnel is dialled.
#[derive(Debug)]
pub enum TunnelEvent {
    Aborted,
    Dialled,
    DialFailed,
    ClientClosed,
    ClientFailed,
    ClientData(Vec<u8>),
}

/// What is done next.
#[derive(Debug)]
pub enum TunnelAction {
    /// Wait for the next event.
    Wait,
    /// End without an answer.
    End,
    /// End with the client's error.
    Fail,
    /// Answer an error and end.
    Refuse(u16, &'static str),
    /// Answer that the tunnel is there; the early data goes first.
    Open,
}

/// The answer that opens a tunnel.
pub const ESTABLISHED: &'static str = "HTTP/1.1 200 Connection Established\r\n\r\n";

/// What the client sent before its tunnel is there.
#[derive(Debug)]
pub struct Tunnel {
    pub early: Vec<u8>,
}

impl Tunnel {
    pub open spec fn wf(self) -> bool {
        self.early@.len() <= MAX_EARLY
    }

    /// A tunnel with what followed the request, unless that is too much.
    pub fn begin(leftover: Vec<u8>) -> (r: Result<Tunnel, (u16, &'static str)>)
        ensures
            match r {
                Ok(t) => leftover@.len() <= MAX_EARLY && t.early@ == leftover@ && t.wf(),
                Err(e) => leftover@.len() > MAX_EARLY && e.0 == 400 && e.1@
                    == "CONNECT early buffer limit exceeded"@,
            },
    {
        if leftover.len() > MAX_EARLY {
            return Err((400, "CONNECT early buffer limit exceeded"));
        }
        Ok(Tunnel { early: leftover })
    }

    pub fn step(&mut self, e: TunnelEvent) -> (r: TunnelAction)
        requires
            old(self).wf(),
        ensures
            final(self).wf(),
            match e {
                TunnelEvent::ClientData(d) => if old(self).early@.len() + d@.len() > MAX_EARLY {
                    (r matches TunnelAction::Refuse(s, m) && s == 400 && m@
                        == "CONNECT early buffer limit exceeded"@) && final(self).early@ == old(
                        self
                    ).early@
                } else {
                    r is Wait && final(self).early@ == old(self).early@ + d@
                },
                TunnelEvent::Aborted => r is End && final(self).early@ == old(self).early@,
                TunnelEvent::Dialled => r is Open && final(self).early@ == old(self).early@,
                TunnelEvent::DialFailed => (r matches TunnelAction::Refuse(s, m) && s == 503 && m@
                    == "Failed to reach destination"@) && final(self).early@ == old(self).early@,
                TunnelEvent::ClientClosed => r is End && final(self).early@ == old(self).early@,
                TunnelEvent::ClientFailed => r is Fail && final(self).early@ == old(self).early@,
            },
    {
        match e {
            TunnelEvent::Aborted => TunnelAction::End,
            TunnelEvent::Dialled => TunnelAction::Open,
            TunnelEvent::DialFailed => TunnelAction::Refuse(503, "Failed to reach destination"),
            TunnelEvent::ClientClosed => TunnelAction::End,
            TunnelEvent::ClientFailed => TunnelAction::Fail,
            TunnelEvent::ClientData(d) => {
                if d.len() > MAX_EARLY - self.early.len() {
                    TunnelAction::Refuse(400, "CONNECT early buffer limit exceeded")
                } else {
                    codec::append(&mut self.early, d.as_slice());
                    TunnelAction::Wait
                }
            },
        }
    }
}

// ---- the service ----
/// What switching the listener asks for.
#[derive(Clone, Copy, Debug, PartialEq, Eq, Structural)]
pub enum ListenAction {
    Nothing,
    Bind,
    Stop,
}

/// The state of the inbound proxy.
#[derive(Debug)]
pub struct ProxyService {
    pub listening: bool,
    pub system_proxy: bool,
    pub error: Option<String>,
    pub clients: usize,
}

impl ProxyService {
    /// No more clients are served than there are slots.
    pub open spec fn wf(self) -> bool {
        self.clients <= MAX_CLIENTS
    }

    pub fn new() -> (r: Self)
        ensures
            r.wf(),
            !r.listening && !r.system_proxy && r.error is None && r.clients == 0,
    {
        ProxyService { listening: false, system_proxy: false, error: None, clients: 0 }
    }

    /// Switches the listener. It listens once it is bound.
    pub fn set_listening(&mut self, on: bool) -> (r: ListenAction)
        ensures
            r == (if !on {
                ListenAction::Stop
            } else if old(self).listening {
                ListenAction::Nothing
            } else {
                ListenAction::Bind
            }),
            final(self).listening == (on && old(self).listening),
            final(self).system_proxy == old(self).system_proxy,
            final(self).error == old(self).error,
            final(self).clients == old(self).clients,
    {
        if !on {
            self.listening = false;
            ListenAction::Stop
        } else if self.listening {
            ListenAction::Nothing
        } else {
            ListenAction::Bind
        }
    }

    /// The listener is bound.
    pub fn bound(&mut self)
        ensures
            final(self).listening,
            final(self).system_proxy == old(self).system_proxy,
            final(self).error == old(self).error,
            final(self).clients == old(self).clients,
    {
        self.listening = true;
    }

    /// Takes a slot for a client; without one the client is refused.
    pub fn take_slot(&mut self) -> (r: Result<(), (u16, &'static str)>)
        requires
            old(self).wf(),
        ensures
            final(self).wf(),
            final(self).listening == old(self).listening,
            final(self).system_proxy == old(self).system_proxy,
            final(self).error == old(self).error,
            match r {
                Ok(_) => old(self).clients < MAX_CLIENTS && final(self).clients == old(
                    self
                ).clients + 1,
                Err(e) => old(self).clients == MAX_CLIENTS && final(self).clients == old(
                    self
                ).clients && e.0 == 503 && e.1@ == "Too many connections"@,
            },
    {
        if self.clients >= MAX_CLIENTS {
            return Err((503, "Too many connections"));
        }
        self.clients = self.clients + 1;
        Ok(())
    }

    /// Gives a slot back.
    pub fn leave(&mut self)
        requires
            old(self).wf(),
            old(self).clients > 0,
        ensures
            final(self).wf(),
            final(self).clients == old(self).clients - 1,
            final(self).listening == old(self).listening,
            final(self).system_proxy == old(self).system_proxy,
            final(self).error == old(self).error,
    {
        self.clients = self.clients - 1;
    }

    /// The system proxy was switched, or that failed.
    pub fn set_system_proxy(&mut self, on: bool, outcome: Result<(), String>)
        ensures
            final(self).listening == old(self).listening,
            final(self).clients == old(self).clients,
            match outcome {
                Ok(_) => final(self).system_proxy == on && final(self).error is None,
                Err(e) => final(self).system_proxy == old(self).system_proxy && final(self).error
                    == Some(e),
            },
    {
        match outcome {
            Ok(_) => {
                self.system_proxy = on;
                self.error = None;
            },
            Err(e) => {
                self.error = Some(e);
            },
        }
    }

    pub fn system_proxy_on(&self) -> (r: bool)
        ensures
            r == self.system_proxy,
    {
        self.system_proxy
    }

    pub fn last_error<'a>(&'a self) -> (r: Option<&'a str>)
        ensures
            text::opt_str(r) == text::opt_view(self.error),
    {
        match &self.error {
            Some(e) => Some(e.as_str()),
            None => None,
        }
    }
}

// ---- laws ----
/// No header of one connection, in any case of its letters, is forwarded: what
/// is kept of the headers is the same with and without it.
pub proof fn law_hop_headers_are_dropped(
    a: Seq<(Seq<char>, Seq<char>)>,
    k: Seq<char>,
    v: Seq<char>,
    b: Seq<(Seq<char>, Seq<char>)>,
)
    requires
        is_hop_header(k),
    ensures
        kept_lines(a.push((k, v)) + b) == kept_lines(a + b),
    decreases b.len(),
{
    if b.len() == 0 {
        assert(a.push((k, v)) + b =~= a.push((k, v)));
        assert(a + b =~= a);
        assert(a.push((k, v)).drop_last() =~= a);
    } else {
        law_hop_headers_are_dropped(a, k, v, b.drop_last());
        assert((a.push((k, v)) + b).drop_last() =~= a.push((k, v)) + b.drop_last());
        assert((a + b).drop_last() =~= a + b.drop_last());
    }
}

/// A head that has been read stays what it is, whatever comes behind it.
pub proof fn law_head_is_stable(ms: Seq<u8>, more: Seq<u8>)
    requires
        doh::blank_line_from(ms, 0) is Some,
    ensures
        match request_of(ms) {
            HeadView::More => false,
            HeadView::Bad(m) => request_of(ms + more) == HeadView::Bad(m),
            HeadView::Request { method, target, headers, leftover } => request_of(ms + more)
                == (HeadView::Request { method, target, headers, leftover: leftover + more }),
        },
{
    lemma_blank_line_kept(ms, more, 0);
    let i = doh::blank_line_from(ms, 0)->0;
    assert((ms + more).take(i) =~= ms.take(i));
    assert((ms + more).skip(i + 4) =~= ms.skip(i + 4) + more);
}

proof fn lemma_blank_line_kept(ms: Seq<u8>, more: Seq<u8>, i: int)
    requires
        0 <= i,
        doh::blank_line_from(ms, i) is Some,
    ensures
        doh::blank_line_from(ms + more, i) == doh::blank_line_from(ms, i),
        i <= doh::blank_line_from(ms, i)->0 <= ms.len() - 4,
    decreases ms.len() - i,
{
    let s = ms + more;
    if i + 4 <= ms.len() {
        assert(s[i] == ms[i] && s[i + 1] == ms[i + 1] && s[i + 2] == ms[i + 2] && s[i + 3] == ms[i
            + 3]);
        if !(ms[i] == 13 && ms[i + 1] == 10 && ms[i + 2] == 13 && ms[i + 3] == 10) {
            lemma_blank_line_kept(ms, more, i + 1);
        }
    }
}

/// A request line is a method, a target and a version.
pub proof fn law_request_line_reads_back(
    method: Seq<char>,
    target: Seq<char>,
    version: Seq<char>,
    rest: Seq<Seq<char>>,
    head: Seq<char>,
    leftover: Seq<u8>,
)
    requires
        method.len() > 0,
        target.len() > 0,
        version.len() > 0,
        forall|i: int| 0 <= i < method.len() ==> (#[trigger] method[i]) != ' ',
        forall|i: int| 0 <= i < target.len() ==> (#[trigger] target[i]) != ' ',
        text::parts(head, "\r\n"@) == seq![
            method + seq![' '] + target + seq![' '] + version,
        ] + rest,
    ensures
        head_of(head, leftover) == (HeadView::Request {
            method,
            target,
            headers: headers_of(rest),
            leftover,
        }),
{
    let line = method + seq![' '] + target + seq![' '] + version;
    let tail = target + seq![' '] + version;
    let n = method.len() as int;
    let k = target.len() as int;
    text::lemma_sep_from(line, seq![' '], 0);
    text::lemma_sep_from(tail, seq![' '], 0);
    assert(seq![' '][0] == ' ');
    assert(line[n] == ' ' && tail[k] == ' ');
    assert forall|i: int| 0 <= i < n implies !seq![' '].contains(#[trigger] line[i]) by {
        assert(line[i] == method[i]);
    }
    assert forall|i: int| 0 <= i < k implies !seq![' '].contains(#[trigger] tail[i]) by {
        assert(tail[i] == target[i]);
    }
    assert(line.take(n) =~= method);
    assert(line.skip(n + 1) =~= tail);
    assert(tail.take(k) =~= target);
    assert(tail.skip(k + 1) =~= version);
    let words = seq![method, target, version];
    assert(three_pieces(line) =~= words);
    lemma_all_nonempty(words);
    let lines = text::parts(head, "\r\n"@);
    assert(lines[0] == line);
    assert(lines.skip(1) =~= rest);
}

proof fn lemma_all_nonempty(v: Seq<Seq<char>>)
    requires
        forall|i: int| 0 <= i < v.len() ==> (#[trigger] v[i]).len() > 0,
    ensures
        nonempty(v) == v,
    decreases v.len(),
{
    reveal(Seq::filter);
    if v.len() > 0 {
        let t = v.drop_last();
        assert forall|i: int| 0 <= i < t.len() implies (#[trigger] t[i]).len() > 0 by {
            assert(t[i] == v[i]);
        }
        lemma_all_nonempty(t);
        assert(v[v.len() - 1].len() > 0);
        assert(nonempty(v) =~= t.push(v.last()));
        assert(t.push(v.last()) =~= v);
    } else {
        assert(nonempty(v) =~= v);
    }
}

/// A header line binds its name to its value.
pub proof fn law_header_line_reads_back(
    h: Seq<(Seq<char>, Seq<char>)>,
    k: Seq<char>,
    v: Seq<char>,
)
    requires
        k.len() > 0,
        v.len() > 0,
        !text::is_white(k[0]) && !text::is_white(k.last()),
        !text::is_white(v[0]) && !text::is_white(v.last()),
        forall|i: int| 0 <= i < k.len() ==> (#[trigger] k[i]) != ':',
        !text::same_nocase(k, "Cookie"@),
    ensures
        with_line(h, k + seq![':', ' '] + v) == h.push((k, v)),
{
    let line = k + seq![':', ' '] + v;
    let n = k.len() as int;
    text::lemma_sep_from(line, seq![':'], 0);
    assert(seq![':'][0] == ':');
    assert(line[n] == ':');
    assert forall|i: int| 0 <= i < n implies !seq![':'].contains(#[trigger] line[i]) by {
        assert(line[i] == k[i]);
    }
    assert(line.take(n) =~= k);
    let s = seq![' '] + v;
    assert(line.skip(n + 1) =~= s);
    assert(s.skip(1) =~= v);
    assert(s[0] == ' ');
    assert(text::trimmed_start(s) == text::trimmed_start(v));
    assert(text::trimmed(s) == v);
    assert(text::trimmed(k) == k);
}

/// CONNECT asks for a tunnel to its target, on port 443 where it names none.
pub proof fn law_connect_opens_tunnel(
    method: Seq<char>,
    h: Seq<char>,
    p: Seq<char>,
    headers: Seq<(Seq<char>, Seq<char>)>,
)
    requires
        text::same_nocase(method, "CONNECT"@),
        h.len() > 0,
        p.len() > 0,
        forall|i: int|
            0 <= i < h.len() ==> (#[trigger] h[i]) != ':' && h[i] != '[' && h[i] != ']',
        !text::is_white(h[0]),
        !text::is_white(h.last()),
        forall|i: int| 0 <= i < p.len() ==> (#[trigger] p[i]) != ':',
        !text::is_white(p.last()),
    ensures
        plan_of(method, h + seq![':'] + p, headers) == PlanView::Tunnel(h + seq![':'] + p),
        plan_of(method, h, headers) == PlanView::Tunnel(h + seq![':', '4', '4', '3']),
{
    rules::law_port_is_added(h, p, "443"@);
    reveal_strlit("443");
    assert(h + seq![':'] + "443"@ =~= h + seq![':', '4', '4', '3']);
}

/// A request for an absolute target is forwarded to the host of the target, on port 80
/// where it names none, with the path and query of the target.
pub proof fn law_absolute_target_is_forwarded(
    method: Seq<char>,
    target: Seq<char>,
    headers: Seq<(Seq<char>, Seq<char>)>,
    l: LinkView,
    h: Seq<char>,
)
    requires
        !text::same_nocase(method, "CONNECT"@),
        text::starts(text::lowered(target), "http://"@),
        !text::starts(text::lowered(target), "https://"@),
        link::url_parts(target) == Some(l),
        l.host == Some(h),
        l.path.len() > 0,
        h.len() > 0,
        forall|i: int|
            0 <= i < h.len() ==> (#[trigger] h[i]) != ':' && h[i] != '[' && h[i] != ']',
        !text::is_white(h[0]),
        !text::is_white(h.last()),
        l.port is None,
    ensures
        plan_of(method, target, headers) == PlanView::Forward(
            h + seq![':', '8', '0'],
            h,
            match l.query {
                Some(q) => l.path + seq!['?'] + q,
                None => l.path,
            },
        ),
{
    rules::law_port_is_added(h, seq!['1'], "80"@);
    reveal_strlit("80");
    reveal_strlit("?");
    assert(h + seq![':'] + "80"@ =~= h + seq![':', '8', '0']);
    assert("?"@ =~= seq!['?']);
}

/// A forwarded request has an origin target, the host, the headers that are kept, and asks
/// to close the connection.
pub proof fn law_forwarded_lines(
    method: Seq<char>,
    path: Seq<char>,
    host: Seq<char>,
    k: Seq<char>,
    v: Seq<char>,
)
    requires
        !is_hop_header(k),
    ensures
        forward_head(method, path, host, seq![(k, v)]) == method + " "@ + path
            + " HTTP/1.1\r\nHost: "@ + host + "\r\n"@ + (k + ": "@ + v + "\r\n"@)
            + "Connection: close\r\n\r\n"@,
{
    let h = seq![(k, v)];
    assert(h.drop_last() =~= Seq::<(Seq<char>, Seq<char>)>::empty());
    assert(kept_lines(h.drop_last()) =~= Seq::<char>::empty());
    assert(kept_lines(h) =~= k + ": "@ + v + "\r\n"@);
}

/// Headers that are not of one connection are kept, in their order.
pub proof fn law_other_headers_are_kept(
    a: Seq<(Seq<char>, Seq<char>)>,
    k: Seq<char>,
    v: Seq<char>,
)
    requires
        !is_hop_header(k),
    ensures
        kept_lines(a.push((k, v))) == kept_lines(a) + (k + ": "@ + v + "\r\n"@),
{
    assert(a.push((k, v)).drop_last() =~= a);
}

/// The headers of one connection, in letters of any case, are not passed on.
pub proof fn law_headers_of_one_connection(k: Seq<char>)
    ensures
        text::same_nocase(k, "Host"@) ==> is_hop_header(k),
        text::same_nocase(k, "Connection"@) ==> is_hop_header(k),
        text::same_nocase(k, "Keep-Alive"@) ==> is_hop_header(k),
        text::same_nocase(k, "Proxy-Authenticate"@) ==> is_hop_header(k),
        text::same_nocase(k, "Proxy-Authorization"@) ==> is_hop_header(k),
        text::same_nocase(k, "Proxy-Connection"@) ==> is_hop_header(k),
        text::same_nocase(k, "TE"@) ==> is_hop_header(k),
        text::same_nocase(k, "Trailer"@) ==> is_hop_header(k),
        text::same_nocase(k, "Transfer-Encoding"@) ==> is_hop_header(k),
        text::same_nocase(k, "Upgrade"@) ==> is_hop_header(k),
{
    reveal_strlit("Host");
    reveal_strlit("Connection");
    reveal_strlit("Keep-Alive");
    reveal_strlit("Proxy-Authenticate");
    reveal_strlit("Proxy-Authorization");
    reveal_strlit("Proxy-Connection");
    reveal_strlit("TE");
    reveal_strlit("Trailer");
    reveal_strlit("Transfer-Encoding");
    reveal_strlit("Upgrade");
    reveal_strlit("host");
    reveal_strlit("connection");
    reveal_strlit("keep-alive");
    reveal_strlit("proxy-authenticate");
    reveal_strlit("proxy-authorization");
    reveal_strlit("proxy-connection");
    reveal_strlit("te");
    reveal_strlit("trailer");
    reveal_strlit("transfer-encoding");
    reveal_strlit("upgrade");
    assert(text::lowered("Host"@) =~= text::lowered("host"@));
    assert(text::lowered("Connection"@) =~= text::lowered("connection"@));
    assert(text::lowered("Keep-Alive"@) =~= text::lowered("keep-alive"@));
    assert(text::lowered("Proxy-Authenticate"@) =~= text::lowered("proxy-authenticate"@));
    assert(text::lowered("Proxy-Authorization"@) =~= text::lowered("proxy-authorization"@));
    assert(text::lowered("Proxy-Connection"@) =~= text::lowered("proxy-connection"@));
    assert(text::lowered("TE"@) =~= text::lowered("te"@));
    assert(text::lowered("Trailer"@) =~= text::lowered("trailer"@));
    assert(text::lowered("Transfer-Encoding"@) =~= text::lowered("transfer-encoding"@));
    assert(text::lowered("Upgrade"@) =~= text::lowered("upgrade"@));
}

/// What is sent to the origin for a link: its path, or a slash where it has none, and its
/// query; the host with its port where it has one.
pub proof fn law_origin_target(l: LinkView, target: Seq<char>, h: Seq<char>, p: u16, q: Seq<char>)
    requires
        l.scheme == "http"@,
        l.host == Some(h),
        l.path.len() > 0,
    ensures
        l.query == Some(q) ==> split_target(target, Some(l)).0 == l.path + seq!['?'] + q,
        l.query is None ==> split_target(target, Some(l)).0 == l.path,
        l.port == Some(p) ==> split_target(target, Some(l)).1 == Some(
            h + seq![':'] + text::dec(p as nat),
        ),
        l.port is None ==> split_target(target, Some(l)).1 == Some(h),
        target.len() > 0 ==> split_target(target, None) == (target, None::<Seq<char>>),
        split_target(Seq::empty(), None).0 == seq!['/'],
{
    reveal_strlit("?");
    reveal_strlit(":");
    reveal_strlit("/");
    assert("?"@ =~= seq!['?']);
    assert(":"@ =~= seq![':']);
    assert("/"@ =~= seq!['/']);
}

/// The lines behind the request line: of the headers, the first host is taken where none is
/// known yet, those of one connection are left out, and the others are kept in order; an
/// empty line ends them.
pub proof fn law_lines_are_kept(
    lines: Seq<Seq<char>>,
    i: int,
    host: Option<Seq<char>>,
    kept: Seq<char>,
    k: Seq<char>,
    v: Seq<char>,
)
    requires
        0 <= i < lines.len(),
        lines[i] == k + seq![':', ' '] + v,
        !k.contains(':'),
        k.len() > 0 && v.len() > 0,
        !text::is_white(k[0]) && !text::is_white(k.last()),
        !text::is_white(v[0]) && !text::is_white(v.last()),
    ensures
        !is_hop_header(k) ==> kept_from(lines, i, host, kept) == kept_from(
            lines,
            i + 1,
            host,
            kept + (k + ": "@ + v + "\r\n"@),
        ),
        is_hop_header(k) && !text::same_nocase(k, "host"@) ==> kept_from(lines, i, host, kept)
            == kept_from(lines, i + 1, host, kept),
        text::same_nocase(k, "host"@) && host is None ==> kept_from(lines, i, host, kept)
            == kept_from(lines, i + 1, Some(v), kept),
        text::same_nocase(k, "host"@) && host is Some ==> kept_from(lines, i, host, kept)
            == kept_from(lines, i + 1, host, kept),
{
    let w = seq![' '];
    let e = Seq::<char>::empty();
    assert(lines[i] =~= k + seq![':'] + (w + v));
    text::law_cut(k, ':', w + v);
    text::law_trim(e, k, e);
    text::law_trim(w, v, e);
    assert(w + v + e =~= w + v);
}

/// The end of the lines.
pub proof fn law_empty_line_ends(lines: Seq<Seq<char>>, i: int, host: Option<Seq<char>>, kept: Seq<char>)
    requires
        0 <= i,
    ensures
        i < lines.len() && lines[i].len() == 0 ==> kept_from(lines, i, host, kept) == (
            host,
            kept,
            true,
        ),
        i >= lines.len() ==> kept_from(lines, i, host, kept) == (host, kept, false),
{
}

/// The words of a line stand between its white space.
pub proof fn law_words_of_line(a: Seq<char>, b: Seq<char>, c: Seq<char>)
    requires
        a.len() > 0 && b.len() > 0 && c.len() > 0,
        forall|i: int| 0 <= i < a.len() ==> !text::is_white(#[trigger] a[i]),
        forall|i: int| 0 <= i < b.len() ==> !text::is_white(#[trigger] b[i]),
        forall|i: int| 0 <= i < c.len() ==> !text::is_white(#[trigger] c[i]),
    ensures
        words_from(a + seq![' '] + b + seq![' '] + c, 0, 0) == seq![a, b, c],
        words_from(a, 0, 0) == seq![a],
        words_from(Seq::empty(), 0, 0) == Seq::<Seq<char>>::empty(),
        word_or(seq![a, b, c], 1, "/"@) == b,
        word_or(seq![a], 1, "/"@) == seq!['/'],
{
    reveal_strlit("/");
    assert("/"@ =~= seq!['/']);
    let s = a + seq![' '] + b + seq![' '] + c;
    let x = a.len() as int;
    let y = x + 1 + b.len() as int;
    let n = s.len() as int;
    assert forall|i: int| 0 <= i < x implies !text::is_white(#[trigger] s[i]) by {
        assert(s[i] == a[i]);
    }
    assert forall|i: int| x + 1 <= i < y implies !text::is_white(#[trigger] s[i]) by {
        assert(s[i] == b[i - x - 1]);
    }
    assert forall|i: int| y + 1 <= i < n implies !text::is_white(#[trigger] s[i]) by {
        assert(s[i] == c[i - y - 1]);
    }
    assert(s[x] == ' ' && s[y] == ' ');
    lemma_word_ends(s, 0, 0, x);
    lemma_word_ends(s, x + 1, x + 1, y);
    lemma_word_ends(s, y + 1, y + 1, n);
    assert(s.subrange(0, x) =~= a);
    assert(s.subrange(x + 1, y) =~= b);
    assert(s.subrange(y + 1, n) =~= c);
    assert(seq![a] + (seq![b] + seq![c]) =~= seq![a, b, c]);
    lemma_word_ends(a, 0, 0, x);
    assert(a.subrange(0, x) =~= a);
}

proof fn lemma_word_ends(s: Seq<char>, i: int, start: int, end: int)
    requires
        0 <= start <= i <= end <= s.len(),
        start < end,
        forall|k: int| i <= k < end ==> !text::is_white(#[trigger] s[k]),
        end < s.len() ==> text::is_white(s[end]),
    ensures
        words_from(s, i, start) == seq![s.subrange(start, end)] + (if end < s.len() {
            words_from(s, end + 1, end + 1)
        } else {
            Seq::empty()
        }),
    decreases end - i,
{
    if i < end {
        lemma_word_ends(s, i + 1, start, end);
    } else if end == s.len() {
        assert(seq![s.subrange(start, end)] + Seq::<Seq<char>>::empty() =~= seq![
            s.subrange(start, end),
        ]);
    }
}

} // verus!
