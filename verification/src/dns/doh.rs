//! Lookups over HTTPS, UDP and the system.

use vstd::prelude::*;

use crate::codec;
use crate::config::link;
use crate::dns::fake_ip::FakeIpPool;
use crate::dns::message;
use crate::ip;
use crate::ip::{Ip, IpView};
use crate::json;
use crate::json::{Json, JsonView};
use crate::text;
use crate::utils;

verus! {

// ---- resolvers that may not be reached directly ----
/// The addresses of public resolvers that speak DNS over HTTPS.
pub open spec fn resolver_numbers() -> Seq<u32> {
    seq![
        0x01010101,
        0x01000001,
        0x08080808,
        0x08080404,
        0x09090909,
        0x95707070,
        0xD043DEDE,
        0xD043DCDC,
        0x5E8C0E0E,
        0x5E8C0F0F,
        0x010C0C0C,
        0x78353535,
        0xDF050505,
        0xDF060606,
        0x4C4C1515,
        0xB9DEDEDE,
        0x2D5A1CA7,
        0x2D5A1EA7,
    ]
}

/// Addresses that are blocked, as numbers.
#[derive(Debug)]
pub struct DohBlocklist {
    pub blocked: Vec<u32>,
}

impl Clone for DohBlocklist {
    fn clone(&self) -> (r: Self)
        ensures
            r.blocked@ == self.blocked@,
    {
        let mut blocked: Vec<u32> = Vec::new();
        let mut i: usize = 0;
        while i < self.blocked.len()
            invariant
                i <= self.blocked@.len(),
                blocked@ == self.blocked@.take(i as int),
            decreases self.blocked@.len() - i,
        {
            blocked.push(self.blocked[i]);
            i += 1;
        }
        DohBlocklist { blocked }
    }
}

impl DohBlocklist {
    pub fn new() -> (r: Self)
        ensures
            r.blocked@ == resolver_numbers(),
    {
        let blocked: Vec<u32> = vec![
            0x01010101, 0x01000001, 0x08080808, 0x08080404, 0x09090909, 0x95707070, 0xD043DEDE,
            0xD043DCDC, 0x5E8C0E0E, 0x5E8C0F0F, 0x010C0C0C, 0x78353535, 0xDF050505, 0xDF060606,
            0x4C4C1515, 0xB9DEDEDE, 0x2D5A1CA7, 0x2D5A1EA7,
        ];
        assert(blocked@ =~= resolver_numbers());
        DohBlocklist { blocked }
    }

    /// Whether an address is blocked; IPv6 addresses never are.
    pub fn is_blocked(&self, ip: Ip) -> (r: bool)
        ensures
            r == (match ip {
                Ip::V4(o) => exists|i: int|
                    0 <= i < self.blocked@.len() && #[trigger] self.blocked@[i] == codec::be32(
                        o@[0],
                        o@[1],
                        o@[2],
                        o@[3],
                    ),
                Ip::V6(_) => false,
            }),
    {
        match ip {
            Ip::V4(o) => {
                let n: u32 = codec::read_be32(o[0], o[1], o[2], o[3]);
                let mut i: usize = 0;
                while i < self.blocked.len()
                    invariant
                        i <= self.blocked@.len(),
                        ip == Ip::V4(o),
                        n == codec::be32(o@[0], o@[1], o@[2], o@[3]),
                        forall|j: int| 0 <= j < i ==> self.blocked@[j] != n,
                    decreases self.blocked@.len() - i,
                {
                    if self.blocked[i] == n {
                        return true;
                    }
                    i += 1;
                }
                false
            },
            Ip::V6(_) => false,
        }
    }
}

// ---- HTTP answers ----
/// The first position of an empty line in bytes, from `i` on.
pub open spec fn blank_line_from(b: Seq<u8>, i: int) -> Option<int>
    decreases b.len() - i,
{
    if i + 4 > b.len() {
        None
    } else if b[i] == 13 && b[i + 1] == 10 && b[i + 2] == 13 && b[i + 3] == 10 {
        Some(i)
    } else {
        blank_line_from(b, i + 1)
    }
}

pub fn find_blank_line(b: &[u8]) -> (r: Option<usize>)
    ensures
        match r {
            Some(i) => blank_line_from(b@, 0) == Some(i as int) && i + 4 <= b@.len(),
            None => blank_line_from(b@, 0) is None,
        },
{
    let n: usize = b.len();
    let mut i: usize = 0;
    while i < n && n - i >= 4
        invariant
            i <= n,
            n == b@.len(),
            blank_line_from(b@, 0) == blank_line_from(b@, i as int),
        decreases n - i,
    {
        if b[i] == 13 && b[i + 1] == 10 && b[i + 2] == 13 && b[i + 3] == 10 {
            return Some(i);
        }
        i += 1;
    }
    None
}

/// The value of the first header with a name, from line `i` on.
pub open spec fn header_from(lines: Seq<Seq<char>>, name: Seq<char>, i: int) -> Option<Seq<char>>
    decreases lines.len() - i,
{
    if i >= lines.len() {
        None
    } else {
        match text::cut(lines[i], ':') {
            Some((k, v)) => if text::same_nocase(k, name) {
                Some(v)
            } else {
                header_from(lines, name, i + 1)
            },
            None => header_from(lines, name, i + 1),
        }
    }
}

fn find_header<'a>(lines: &Vec<&'a [char]>, name: &str, from: usize) -> (r: Option<&'a [char]>)
    ensures
        text::opt_slice(r) == header_from(text::texts(lines@), name@, from as int),
{
    let ghost ls = text::texts(lines@);
    let mut i: usize = from;
    while i < lines.len()
        invariant
            ls == text::texts(lines@),
            header_from(ls, name@, from as int) == header_from(ls, name@, i as int),
        decreases lines@.len() - i,
    {
        assert(ls[i as int] == lines@[i as int]@);
        if let Some((k, v)) = text::split_once(lines[i], ':') {
            if text::is_nocase(k, name) {
                return Some(v);
            }
        }
        i += 1;
    }
    None
}

/// The body length that the headers of an answer give.
pub open spec fn content_length(head: Seq<char>) -> Option<int> {
    match header_from(text::parts(head, "\r\n"@), "Content-Length"@, 1) {
        Some(v) => text::unsigned_value(text::trimmed(v), usize::MAX as int),
        None => None,
    }
}

/// The body of an HTTP answer, once all of it is there.
pub open spec fn complete_body(b: Seq<u8>) -> Option<Seq<char>> {
    match blank_line_from(b, 0) {
        None => None,
        Some(i) => if !vstd::utf8::valid_utf8(b.take(i)) {
            None
        } else {
            match content_length(vstd::utf8::decode_utf8(b.take(i))) {
                None => None,
                Some(n) => {
                    let body = b.skip(i + 4);
                    if body.len() >= n && vstd::utf8::valid_utf8(body.take(n)) {
                        Some(vstd::utf8::decode_utf8(body.take(n)))
                    } else {
                        None
                    }
                },
            }
        },
    }
}

pub fn http_body_if_complete(buf: &[u8]) -> (r: Option<String>)
    ensures
        text::opt_view(r) == complete_body(buf@),
{
    let size: usize = buf.len();
    let i: usize = match find_blank_line(buf) {
        Some(i) => i,
        None => return None,
    };
    let head_bytes = codec::copy(&buf[0..i]);
    assert(head_bytes@ =~= buf@.take(i as int));
    let head = match codec::utf8_string(head_bytes) {
        Some(h) => h,
        None => return None,
    };
    let h = text::chars_of(head.as_str());
    proof {
        reveal_strlit("\r\n");
    }
    let lines = text::split_str(h.as_slice(), "\r\n");
    let v = match find_header(&lines, "Content-Length", 1) {
        Some(v) => v,
        None => return None,
    };
    let n: usize = match text::parse_unsigned(text::trim(v), usize::MAX as u64) {
        Some(n) => n as usize,
        None => return None,
    };
    if size - i - 4 < n {
        return None;
    }
    let body = codec::copy(&buf[i + 4..i + 4 + n]);
    assert(body@ =~= buf@.skip(i + 4).take(n as int));
    codec::utf8_string(body)
}

/// What stands behind the first empty line of an answer that has ended, up to
/// the next one; the whole text where there is no empty line.
pub open spec fn final_body(s: Seq<char>) -> Seq<char> {
    let p = text::parts(s, "\r\n\r\n"@);
    if p.len() > 1 {
        p[1]
    } else {
        s
    }
}

pub fn body_at_end(buf: &[u8]) -> (r: String)
    ensures
        r@ == final_body(codec::utf8_text(buf@)),
{
    let s = codec::utf8_lossy(buf);
    let c = text::chars_of(s.as_str());
    proof {
        reveal_strlit("\r\n\r\n");
    }
    let p = text::split_str(c.as_slice(), "\r\n\r\n");
    assert(text::texts(p@).len() == p@.len());
    if p.len() > 1 {
        assert(text::texts(p@)[1] == p@[1]@);
        text::string_of(p[1])
    } else {
        s
    }
}

/// The request for a JSON answer.
pub open spec fn doh_request_text(path: Seq<char>, query: Seq<char>, sni: Seq<char>) -> Seq<char> {
    "GET "@ + path + "?"@ + query + " HTTP/1.1\r\nHost: "@ + sni
        + "\r\nAccept: application/dns-json\r\nConnection: close\r\n\r\n"@
}

/// The request for the addresses of a host at a resolver.
pub fn doh_request(path: &str, query: &str, sni: &str) -> (r: String)
    ensures
        r@ == doh_request_text(path@, query@, sni@),
{
    let mut out: Vec<char> = Vec::new();
    text::append_str(&mut out, "GET ");
    text::append_str(&mut out, path);
    text::append_str(&mut out, "?");
    text::append_str(&mut out, query);
    text::append_str(&mut out, " HTTP/1.1\r\nHost: ");
    text::append_str(&mut out, sni);
    text::append_str(&mut out, "\r\nAccept: application/dns-json\r\nConnection: close\r\n\r\n");
    assert(out@ =~= doh_request_text(path@, query@, sni@));
    text::string_of(out.as_slice())
}

/// The request for the IPv4 addresses of a host, where the address of the
/// resolver with the query is a URL.
pub fn lookup_request(base: &str, host: &str, sni: &str) -> (r: Option<String>)
    ensures
        ({
            let url = base@ + "?name="@ + host@ + "&type=A"@;
            match link::url_parts(url) {
                None => r is None,
                Some(l) => text::opt_view(r) == Some(
                    doh_request_text(
                        l.path,
                        match l.query {
                            Some(q) => q,
                            None => ""@,
                        },
                        sni@,
                    ),
                ),
            }
        }),
{
    let mut u: Vec<char> = Vec::new();
    text::append_str(&mut u, base);
    text::append_str(&mut u, "?name=");
    text::append_str(&mut u, host);
    text::append_str(&mut u, "&type=A");
    assert(u@ =~= base@ + "?name="@ + host@ + "&type=A"@);
    let url = text::string_of(u.as_slice());
    match link::parse_link(url.as_str()) {
        None => None,
        Some(l) => {
            let q: &str = match &l.query {
                Some(q) => q.as_str(),
                None => "",
            };
            Some(doh_request(l.path.as_str(), q, sni))
        },
    }
}

// ---- JSON answers ----
/// The record type of an answer, given as a number or as a text.
pub open spec fn record_type(a: JsonView) -> Option<int> {
    match a.entry("type"@) {
        None => None,
        Some(t) => match t.signed_value() {
            Some(n) => Some(n as int),
            None => match t.text_value() {
                Some(s) => text::signed_value(s),
                None => None,
            },
        },
    }
}

/// The address of an answer of type A or AAAA.
pub open spec fn answer_ip(a: JsonView) -> Option<IpView> {
    if record_type(a) == Some(1int) || record_type(a) == Some(28int) {
        match json::text_at(a, "data"@) {
            Some(d) => ip::ip_of(d),
            None => None,
        }
    } else {
        None
    }
}

pub open spec fn answer_ips(v: Seq<JsonView>) -> Seq<IpView>
    decreases v.len(),
{
    if v.len() == 0 {
        Seq::empty()
    } else {
        let head = answer_ips(v.drop_last());
        match answer_ip(v.last()) {
            Some(i) => head.push(i),
            None => head,
        }
    }
}

/// The addresses of a JSON answer.
pub open spec fn document_ips(v: JsonView) -> Seq<IpView> {
    match json::list_at(v, "Answer"@) {
        Some(a) => answer_ips(a),
        None => Seq::empty(),
    }
}

pub open spec fn ip_views(v: Seq<Ip>) -> Seq<IpView> {
    Seq::new(v.len(), |i: int| v[i]@)
}

fn read_record_type(a: &Json) -> (r: Option<i64>)
    ensures
        text::opt_signed(r) == record_type(a@),
{
    match a.get("type") {
        None => None,
        Some(t) => match t.as_i64() {
            Some(n) => Some(n),
            None => match t.as_str() {
                Some(s) => {
                    let c = text::chars_of(s.as_str());
                    text::parse_i64(c.as_slice())
                },
                None => None,
            },
        },
    }
}

fn read_answer(a: &Json) -> (r: Option<Ip>)
    ensures
        ip::opt_ip(r) == answer_ip(a@),
{
    let ty = match read_record_type(a) {
        Some(t) => t,
        None => return None,
    };
    if ty != 1 && ty != 28 {
        return None;
    }
    match json::jstr(a, "data") {
        Some(d) => {
            let c = text::chars_of(d.as_str());
            ip::parse_ip(c.as_slice())
        },
        None => None,
    }
}

pub fn doh_ips(v: &Json) -> (r: Vec<Ip>)
    ensures
        ip_views(r@) == document_ips(v@),
{
    let mut ips: Vec<Ip> = Vec::new();
    assert(ip_views(ips@) =~= Seq::<IpView>::empty());
    if let Some(ans) = json::jlist(v, "Answer") {
        let mut i: usize = 0;
        let ghost views = json::json_views(ans@);
        assert(views.take(0) =~= Seq::<JsonView>::empty());
        while i < ans.len()
            invariant
                i <= ans@.len(),
                views == json::json_views(ans@),
                ip_views(ips@) == answer_ips(views.take(i as int)),
            decreases ans@.len() - i,
        {
            let ghost before = ip_views(ips@);
            assert(views.take(i + 1).drop_last() =~= views.take(i as int));
            assert(views.take(i + 1).last() == ans@[i as int]@);
            if let Some(x) = read_answer(&ans[i]) {
                ips.push(x);
                assert(ip_views(ips@) =~= before.push(x@));
            }
            i += 1;
        }
        assert(views.take(i as int) =~= views);
    }
    ips
}

/// The addresses of the body of an answer; nothing where it is no JSON.
pub fn parse_doh_ips(body: &str) -> (r: Option<Vec<Ip>>)
    ensures
        match r {
            Some(v) => json::json_value(body@) is Some && ip_views(v@) == document_ips(
                json::json_value(body@)->0,
            ),
            None => json::json_value(body@) is None,
        },
{
    match json::parse_json(body) {
        Some(v) => Some(doh_ips(&v)),
        None => None,
    }
}

// ---- a lookup ----
/// How a lookup begins.
#[derive(Debug)]
pub enum Lookup {
    /// There is no host.
    Empty,
    /// The host is an address.
    Literal(Ip),
    /// The host is a name, in its ASCII form.
    Name(String),
}

pub fn begin_lookup(host: &str) -> (r: Lookup)
    ensures
        ({
            let key = utils::ascii_host(host@);
            match r {
                Lookup::Empty => key.len() == 0,
                Lookup::Literal(i) => key.len() > 0 && ip::ip_of(key) == Some(i@),
                Lookup::Name(n) => key.len() > 0 && n@ == key && ip::ip_of(key) is None,
            }
        }),
{
    let key = utils::domain_to_ascii(host);
    let c = text::chars_of(key.as_str());
    if c.len() == 0 {
        return Lookup::Empty;
    }
    match ip::parse_ip(c.as_slice()) {
        Some(i) => Lookup::Literal(i),
        None => Lookup::Name(key),
    }
}

/// What a cache says of a name: addresses, or that there are none. Nothing
/// where it does not know the name.
pub fn cached(entry: Option<Option<Vec<Ip>>>) -> (r: Option<Result<Vec<Ip>, String>>)
    ensures
        match entry {
            None => r is None,
            Some(None) => r is Some && r->0 is Err && r->0->Err_0@ == "DNS negative cache"@,
            Some(Some(v)) => if v@.len() > 0 {
                r == Some(Ok::<Vec<Ip>, String>(v))
            } else {
                r is Some && r->0 is Err && r->0->Err_0@ == "DNS negative cache"@
            },
        },
{
    match entry {
        None => None,
        Some(None) => Some(Err("DNS negative cache".to_owned())),
        Some(Some(v)) => if v.len() > 0 {
            Some(Ok(v))
        } else {
            Some(Err("DNS negative cache".to_owned()))
        },
    }
}

/// A lookup that is being made: its name, and by what those who wait for it are told.
pub struct Underway<T> {
    pub name: String,
    pub news: T,
}

/// The position of a name among lookups, from position `i` on.
pub open spec fn underway_from<T>(v: Seq<Underway<T>>, name: Seq<char>, i: int) -> Option<int>
    decreases v.len() - i,
{
    if i >= v.len() {
        None
    } else if v[i].name@ == name {
        Some(i)
    } else {
        underway_from(v, name, i + 1)
    }
}

proof fn lemma_underway<T>(v: Seq<Underway<T>>, name: Seq<char>, i: int)
    requires
        0 <= i,
    ensures
        match underway_from(v, name, i) {
            Some(j) => i <= j < v.len() && v[j].name@ == name,
            None => forall|k: int| i <= k < v.len() ==> (#[trigger] v[k]).name@ != name,
        },
    decreases v.len() - i,
{
    if i < v.len() && v[i].name@ != name {
        lemma_underway(v, name, i + 1);
    }
}

/// The lookups that are being made, no name twice. Whoever asks for a name first makes
/// the lookup; the others wait for it.
pub struct SharedLookups<T> {
    pub items: Vec<Underway<T>>,
}

impl<T> SharedLookups<T> {
    pub open spec fn wf(self) -> bool {
        forall|i: int, j: int|
            0 <= i < j < self.items@.len() ==> (#[trigger] self.items@[i]).name@ != (
            #[trigger] self.items@[j]).name@
    }

    /// Whether a name is being looked up.
    pub open spec fn busy(self, name: Seq<char>) -> bool {
        underway_from(self.items@, name, 0) is Some
    }

    pub fn new() -> (r: Self)
        ensures
            r.wf(),
            r.items@.len() == 0,
            forall|n: Seq<char>| !#[trigger] r.busy(n),
    {
        SharedLookups { items: Vec::new() }
    }

    fn position(&self, name: &str) -> (r: Option<usize>)
        ensures
            match r {
                Some(i) => underway_from(self.items@, name@, 0) == Some(i as int) && i
                    < self.items@.len(),
                None => underway_from(self.items@, name@, 0) is None,
            },
    {
        let want = text::chars_of(name);
        let mut i: usize = 0;
        while i < self.items.len()
            invariant
                i <= self.items@.len(),
                want@ == name@,
                underway_from(self.items@, name@, 0) == underway_from(
                    self.items@,
                    name@,
                    i as int,
                ),
            decreases self.items@.len() - i,
        {
            let c = text::chars_of(self.items[i].name.as_str());
            if text::same(c.as_slice(), want.as_slice()) {
                return Some(i);
            }
            i += 1;
        }
        None
    }

    /// Asks for a name: the position of the lookup to wait for, or nothing where the
    /// one who asks makes it, which is then underway.
    pub fn join(&mut self, name: &str, news: T) -> (r: Option<usize>)
        requires
            old(self).wf(),
        ensures
            final(self).wf(),
            final(self).busy(name@),
            r is None <==> !old(self).busy(name@),
            match r {
                Some(i) => underway_from(old(self).items@, name@, 0) == Some(i as int) && i
                    < old(self).items@.len() && *final(self) == *old(self),
                None => final(self).items@.len() == old(self).items@.len() + 1
                    && final(self).items@.drop_last() == old(self).items@
                    && final(self).items@.last().name@ == name@ && final(self).items@.last().news
                    == news,
            },
    {
        let ghost before = self.items@;
        proof {
            lemma_underway(before, name@, 0);
        }
        match self.position(name) {
            Some(i) => Some(i),
            None => {
                self.items.push(Underway { name: name.to_owned(), news });
                proof {
                    let v = self.items@;
                    lemma_underway(v, name@, 0);
                    assert(v[before.len() as int].name@ == name@);
                    assert(v.drop_last() =~= before);
                    assert forall|i: int, j: int| 0 <= i < j < v.len() implies (
                    #[trigger] v[i]).name@ != (#[trigger] v[j]).name@ by {
                        assert(v[i] == before[i]);
                        if j < before.len() {
                            assert(v[j] == before[j]);
                        }
                    }
                }
                None
            },
        }
    }

    /// The lookup of a name is made: by what those who wait are told. The next who asks
    /// for the name makes it anew.
    pub fn finish(&mut self, name: &str) -> (r: Option<T>)
        requires
            old(self).wf(),
        ensures
            final(self).wf(),
            !final(self).busy(name@),
            match underway_from(old(self).items@, name@, 0) {
                Some(i) => r == Some(old(self).items@[i].news) && final(self).items@
                    == old(self).items@.remove(i),
                None => r is None && *final(self) == *old(self),
            },
    {
        let ghost before = self.items@;
        proof {
            lemma_underway(before, name@, 0);
        }
        match self.position(name) {
            None => None,
            Some(i) => {
                let u = self.items.remove(i);
                proof {
                    let v = self.items@;
                    lemma_underway(v, name@, 0);
                    assert forall|a: int, b: int| 0 <= a < b < v.len() implies (
                    #[trigger] v[a]).name@ != (#[trigger] v[b]).name@ by {
                        assert(v[a] == before[if a < i {
                            a
                        } else {
                            a + 1
                        }]);
                        assert(v[b] == before[if b < i {
                            b
                        } else {
                            b + 1
                        }]);
                    }
                    assert forall|a: int| 0 <= a < v.len() implies (#[trigger] v[a]).name@
                        != name@ by {
                        assert(before[i as int].name@ == name@);
                        if a < i {
                            assert(v[a] == before[a]);
                        } else {
                            assert(v[a] == before[a + 1]);
                        }
                    }
                }
                Some(u.news)
            },
        }
    }
}

/// How long the outcome of a lookup is cached, in milliseconds.
pub fn cache_time(found: bool) -> (r: u64)
    ensures
        r == (if found {
            300000u64
        } else {
            30000u64
        }),
{
    if found {
        300000
    } else {
        30000
    }
}

/// Where addresses are looked for.
#[derive(Clone, Copy, Debug, PartialEq, Eq, Structural)]
pub enum Source {
    System,
    Udp,
    AliDoh,
    DohPub,
}

/// The source that is asked next, after a number of sources that gave nothing.
/// The system is not asked while sockets are bound to an interface.
pub fn next_source(bound: bool, failed: usize) -> (r: Option<Source>)
    ensures
        ({
            let k = failed + (if bound {
                1int
            } else {
                0int
            });
            r == (if k == 0 {
                Some(Source::System)
            } else if k == 1 {
                Some(Source::Udp)
            } else if k == 2 {
                Some(Source::AliDoh)
            } else if k == 3 {
                Some(Source::DohPub)
            } else {
                None
            })
        }),
{
    if failed > 3 {
        return None;
    }
    let k: usize = if bound {
        failed + 1
    } else {
        failed
    };
    if k == 0 {
        Some(Source::System)
    } else if k == 1 {
        Some(Source::Udp)
    } else if k == 2 {
        Some(Source::AliDoh)
    } else if k == 3 {
        Some(Source::DohPub)
    } else {
        None
    }
}

/// The addresses of the system that are not fake, those of IPv4 first.
pub open spec fn usable_ips(v: Seq<IpView>, six: bool) -> Seq<IpView>
    decreases v.len(),
{
    if v.len() == 0 {
        Seq::empty()
    } else {
        let head = usable_ips(v.drop_last(), six);
        match v.last() {
            IpView::V4(o) => if !six && !crate::dns::fake_ip::fake(o) {
                head.push(v.last())
            } else {
                head
            },
            IpView::V6(_) => if six {
                head.push(v.last())
            } else {
                head
            },
        }
    }
}

fn push_usable(out: &mut Vec<Ip>, v: &[Ip], six: bool)
    ensures
        ip_views(final(out)@) == ip_views(old(out)@) + usable_ips(ip_views(v@), six),
{
    let ghost start = ip_views(out@);
    let ghost vs = ip_views(v@);
    let mut i: usize = 0;
    assert(ip_views(out@) =~= start + usable_ips(vs.take(0), six));
    while i < v.len()
        invariant
            i <= v@.len(),
            vs == ip_views(v@),
            ip_views(out@) == start + usable_ips(vs.take(i as int), six),
        decreases v@.len() - i,
    {
        let ghost here = ip_views(out@);
        let ghost done = usable_ips(vs.take(i as int), six);
        proof {
            assert(vs.take(i + 1).drop_last() =~= vs.take(i as int));
            assert(vs.take(i + 1).last() == v@[i as int]@);
        }
        let keep = match v[i] {
            Ip::V4(o) => !six && !FakeIpPool::is_fake_ip_v4(o),
            Ip::V6(_) => six,
        };
        if keep {
            out.push(v[i]);
            proof {
                assert(ip_views(out@) =~= here.push(v@[i as int]@));
                assert(here.push(v@[i as int]@) =~= start + done.push(v@[i as int]@));
            }
        }
        i += 1;
    }
    assert(vs.take(i as int) =~= vs);
}

pub fn system_answers(v: &[Ip]) -> (r: Vec<Ip>)
    ensures
        ip_views(r@) == usable_ips(ip_views(v@), false) + usable_ips(ip_views(v@), true),
{
    let mut out: Vec<Ip> = Vec::new();
    push_usable(&mut out, v, false);
    push_usable(&mut out, v, true);
    assert(ip_views(out@) =~= usable_ips(ip_views(v@), false) + usable_ips(ip_views(v@), true));
    out
}

/// What a datagram means to a lookup.
#[derive(Debug)]
pub enum Reply {
    /// It belongs to another lookup.
    Ignore,
    /// It holds no address.
    Empty,
    Addresses(Vec<[u8; 4]>),
}

pub fn judge_reply(id: u16, msg: &[u8]) -> (r: Reply)
    ensures
        ({
            let ours = msg@.len() >= 12 && codec::be16(msg@[0], msg@[1]) == id;
            let found = message::answers_of(msg@);
            match r {
                Reply::Ignore => !ours,
                Reply::Empty => ours && (found is None || found->0.len() == 0),
                Reply::Addresses(v) => ours && found == Some(message::octets(v@)) && v@.len() > 0,
            }
        }),
{
    if msg.len() < 12 || codec::read_be16(msg[0], msg[1]) != id {
        return Reply::Ignore;
    }
    match message::parse_a_answers(msg) {
        Some(v) => {
            assert(message::octets(v@).len() == v@.len());
            if v.len() > 0 {
                Reply::Addresses(v)
            } else {
                Reply::Empty
            }
        },
        None => Reply::Empty,
    }
}

/// The id of a query and the counter behind it; the id is never zero.
pub fn next_dns_id(counter: u16) -> (r: (u16, u16))
    ensures
        r.0 == (if counter == 0 {
            1u16
        } else {
            counter
        }),
        r.1 == (if counter == 0xffff {
            0u16
        } else {
            (counter + 1) as u16
        }),
{
    let id: u16 = if counter == 0 {
        1
    } else {
        counter
    };
    let next: u16 = if counter == 0xffff {
        0
    } else {
        counter + 1
    };
    (id, next)
}

// ---- laws ----
/// The request to a resolver is a GET of its path with the query, for JSON, on a
/// connection that is closed.
pub proof fn law_resolver_request_lines(path: Seq<char>, query: Seq<char>, sni: Seq<char>)
    ensures
        doh_request_text(path, query, sni) == "GET "@ + (path + "?"@ + query)
            + " HTTP/1.1\r\nHost: "@ + sni
            + "\r\nAccept: application/dns-json\r\nConnection: close\r\n\r\n"@,
{
    assert(doh_request_text(path, query, sni) =~= "GET "@ + (path + "?"@ + query)
        + " HTTP/1.1\r\nHost: "@ + sni
        + "\r\nAccept: application/dns-json\r\nConnection: close\r\n\r\n"@);
}

/// An answer counts with type 1 or 28 and an address as its data; no other does.
pub proof fn law_answers_that_count(a: JsonView, n: i64, d: Seq<char>)
    requires
        a.entry("type"@) is Some,
        a.entry("type"@)->0.signed_value() == Some(n),
        json::text_at(a, "data"@) == Some(d),
    ensures
        n == 1 || n == 28 ==> answer_ip(a) == ip::ip_of(d),
        n != 1 && n != 28 ==> answer_ip(a) is None,
{
}

/// The addresses of an answer are in the order of its records.
pub proof fn law_addresses_in_order(v: Seq<JsonView>, a: JsonView)
    ensures
        answer_ip(a) is Some ==> answer_ips(v.push(a)) == answer_ips(v).push(answer_ip(a)->0),
        answer_ip(a) is None ==> answer_ips(v.push(a)) == answer_ips(v),
{
    assert(v.push(a).drop_last() =~= v);
}

/// Of the addresses of an answer those of the family that was asked for count, in order,
/// but for the ones that this program gives out itself.
pub proof fn law_addresses_that_count(v: Seq<IpView>, four: Seq<u8>, six: Seq<u8>)
    ensures
        usable_ips(v.push(IpView::V6(six)), true) == usable_ips(v, true).push(IpView::V6(six)),
        usable_ips(v.push(IpView::V6(six)), false) == usable_ips(v, false),
        usable_ips(v.push(IpView::V4(four)), true) == usable_ips(v, true),
        four[0] != 198 || four[1] != 18 ==> usable_ips(v.push(IpView::V4(four)), false)
            == usable_ips(v, false).push(IpView::V4(four)),
        four[0] == 198 && four[1] == 18 && four[2] > 0 ==> usable_ips(
            v.push(IpView::V4(four)),
            false,
        ) == usable_ips(v, false),
{
    assert(v.push(IpView::V6(six)).drop_last() =~= v);
    assert(v.push(IpView::V4(four)).drop_last() =~= v);
}

/// The body of an answer is as long as its head says: what is behind it does not belong to
/// it, and before it is there the answer is not whole.
pub proof fn law_body_is_as_long_as_said(b: Seq<u8>, i: int, n: int)
    requires
        blank_line_from(b, 0) == Some(i),
        vstd::utf8::valid_utf8(b.take(i)),
        content_length(vstd::utf8::decode_utf8(b.take(i))) == Some(n),
        0 <= n,
    ensures
        b.skip(i + 4).len() < n ==> complete_body(b) is None,
        b.skip(i + 4).len() >= n && vstd::utf8::valid_utf8(b.skip(i + 4).take(n)) ==> complete_body(
            b,
        ) == Some(vstd::utf8::decode_utf8(b.skip(i + 4).take(n))),
{
}

/// The length of a body is the number in the header of that name, in letters of any case.
pub proof fn law_length_is_read(status: Seq<char>, name: Seq<char>, n: nat)
    requires
        n <= usize::MAX,
        text::same_nocase(name, "Content-Length"@),
        !name.contains(':'),
    ensures
        header_from(
            seq![status, name + seq![':', ' '] + text::dec(n)],
            "Content-Length"@,
            1,
        ) is Some,
        text::unsigned_value(
            text::trimmed(
                header_from(
                    seq![status, name + seq![':', ' '] + text::dec(n)],
                    "Content-Length"@,
                    1,
                )->0,
            ),
            usize::MAX as int,
        ) == Some(n as int),
{
    let d = text::dec(n);
    let l = name + seq![':', ' '] + d;
    let w = seq![' '];
    let e = Seq::<char>::empty();
    assert(l =~= name + seq![':'] + (w + d));
    text::law_cut(name, ':', w + d);
    text::law_dec_reads_back(n);
    text::law_number_reads_back(n, usize::MAX as int);
    assert(text::is_digit(d[0]) && text::is_digit(d.last()));
    text::law_trim(w, d, e);
    assert(w + d + e =~= w + d);
    let lines = seq![status, l];
    assert(lines[1] == l);
}

/// The addresses of public resolvers, by their octets.
pub proof fn law_public_resolvers()
    ensures
        ({
            let at = |a: int, b: int, c: int, d: int|
                resolver_numbers().contains((a * 0x1000000 + b * 0x10000 + c * 0x100 + d) as u32);
            &&& at(1, 1, 1, 1)
            &&& at(1, 0, 0, 1)
            &&& at(8, 8, 8, 8)
            &&& at(8, 8, 4, 4)
            &&& at(9, 9, 9, 9)
            &&& at(149, 112, 112, 112)
            &&& at(208, 67, 222, 222)
            &&& at(208, 67, 220, 220)
            &&& at(94, 140, 14, 14)
            &&& at(94, 140, 15, 15)
            &&& at(1, 12, 12, 12)
            &&& at(120, 53, 53, 53)
            &&& at(223, 5, 5, 5)
            &&& at(223, 6, 6, 6)
            &&& at(76, 76, 21, 21)
            &&& at(185, 222, 222, 222)
            &&& at(45, 90, 28, 167)
            &&& at(45, 90, 30, 167)
        }),
        resolver_numbers().len() == 18,
{
    let r = resolver_numbers();
    assert(r[0] == 0x01010101 && r[1] == 0x01000001 && r[2] == 0x08080808 && r[3] == 0x08080404);
    assert(r[4] == 0x09090909 && r[5] == 0x95707070 && r[6] == 0xD043DEDE && r[7] == 0xD043DCDC);
    assert(r[8] == 0x5E8C0E0E && r[9] == 0x5E8C0F0F && r[10] == 0x010C0C0C && r[11] == 0x78353535);
    assert(r[12] == 0xDF050505 && r[13] == 0xDF060606 && r[14] == 0x4C4C1515);
    assert(r[15] == 0xB9DEDEDE && r[16] == 0x2D5A1CA7 && r[17] == 0x2D5A1EA7);
}

/// The length of a body stands in a header behind the line of the status.
pub proof fn law_length_behind_status(status: Seq<char>, n: nat)
    requires
        n <= usize::MAX,
        !status.contains('\r'),
    ensures
        content_length(status + "\r\n"@ + ("Content-Length: "@ + text::dec(n))) == Some(n as int),
{
    let name = "Content-Length"@;
    let d = text::dec(n);
    let l = "Content-Length: "@ + d;
    lemma_length_line(n);
    law_length_is_read(status, name, n);
    lemma_two_lines(status, l);
}

proof fn lemma_length_line(n: nat)
    ensures
        "Content-Length: "@ + text::dec(n) == "Content-Length"@ + seq![':', ' '] + text::dec(n),
        !("Content-Length"@).contains(':'),
        !("Content-Length: "@ + text::dec(n)).contains('\r'),
{
    reveal_strlit("Content-Length: ");
    reveal_strlit("Content-Length");
    let d = text::dec(n);
    let l = "Content-Length: "@ + d;
    text::law_dec_reads_back(n);
    assert(l =~= "Content-Length"@ + seq![':', ' '] + d);
    assert forall|i: int| 0 <= i < l.len() implies l[i] != '\r' by {
        if i >= 16 {
            assert(l[i] == d[i - 16]);
            assert(text::is_digit(d[i - 16]));
        }
    }
}

proof fn lemma_two_lines(a: Seq<char>, l: Seq<char>)
    requires
        !a.contains('\r'),
        !l.contains('\r'),
    ensures
        text::parts(a + "\r\n"@ + l, "\r\n"@) == seq![a, l],
{
    let p = "\r\n"@;
    let s = a + p + l;
    let k = a.len() as int;
    assert(p.len() == 2) by {
        reveal_strlit("\r\n");
    }
    lemma_line_end(a, l);
    lemma_no_line_end(l);
    assert(s.take(k) =~= a);
    assert(s.skip(k + 2) =~= l);
    assert(text::parts(l, p) == seq![l]);
    assert(seq![a] + seq![l] =~= seq![a, l]);
}

proof fn lemma_line_end(a: Seq<char>, l: Seq<char>)
    requires
        !a.contains('\r'),
    ensures
        text::found(a + "\r\n"@ + l, "\r\n"@) == Some(a.len() as int),
{
    let p = "\r\n"@;
    assert(p.len() == 2 && p[0] == '\r') by {
        reveal_strlit("\r\n");
    }
    assert forall|k: int| 0 <= k < a.len() implies (#[trigger] a[k]) != p[0] by {
        assert(a.contains(a[k]));
    }
    lemma_found_behind(a, p, l, 0);
}

proof fn lemma_found_behind(a: Seq<char>, p: Seq<char>, l: Seq<char>, i: int)
    requires
        0 <= i <= a.len(),
        p.len() > 0,
        forall|k: int| 0 <= k < a.len() ==> (#[trigger] a[k]) != p[0],
    ensures
        text::found_from(a + p + l, p, i) == Some(a.len() as int),
    decreases a.len() - i,
{
    let s = a + p + l;
    let n = p.len() as int;
    if i < a.len() {
        lemma_found_behind(a, p, l, i + 1);
        assert(!text::occurs(s, p, i)) by {
            if text::occurs(s, p, i) {
                assert(s.subrange(i, i + n)[0] == s[i]);
                assert(s[i] == a[i]);
            }
        }
    } else {
        assert(s.subrange(i, i + n) =~= p);
    }
}

proof fn lemma_no_line_end(l: Seq<char>)
    requires
        !l.contains('\r'),
    ensures
        text::found(l, "\r\n"@) is None,
{
    reveal_strlit("\r\n");
    let p = "\r\n"@;
    assert(p[0] == '\r');
    text::lemma_found_from(l, p, 0);
    if text::found(l, p) is Some {
        let j = text::found(l, p)->0;
        assert(l.subrange(j, j + 2)[0] == l[j]);
    }
}

} // verus!
