//! Links: their parts, their query and percent encoding.

use vstd::prelude::*;

use crate::bindings::Bindings;
use crate::codec;
use crate::text;

verus! {

/// The parts of a URL that a share link uses.
#[derive(Debug)]
pub struct Link {
    pub scheme: String,
    pub username: String,
    pub password: Option<String>,
    pub host: Option<String>,
    pub port: Option<u16>,
    pub path: String,
    pub query: Option<String>,
    pub fragment: Option<String>,
}

#[verifier::ext_equal]
pub struct LinkView {
    pub scheme: Seq<char>,
    pub username: Seq<char>,
    pub password: Option<Seq<char>>,
    pub host: Option<Seq<char>>,
    pub port: Option<u16>,
    pub path: Seq<char>,
    pub query: Option<Seq<char>>,
    pub fragment: Option<Seq<char>>,
}

impl View for Link {
    type V = LinkView;

    open spec fn view(&self) -> LinkView {
        LinkView {
            scheme: self.scheme@,
            username: self.username@,
            password: text::opt_view(self.password),
            host: text::opt_view(self.host),
            port: self.port,
            path: self.path@,
            query: text::opt_view(self.query),
            fragment: text::opt_view(self.fragment),
        }
    }
}

pub open spec fn opt_link(o: Option<Link>) -> Option<LinkView> {
    match o {
        Some(l) => Some(l@),
        None => None,
    }
}

/// The parts of the URL that a text writes, if it writes one.
pub uninterp spec fn url_parts(s: Seq<char>) -> Option<LinkView>;

/// `url::Url::parse`, with the parts of the URL read by `scheme`, `username`,
/// `password`, `host_str`, `port`, `path`, `query` and `fragment`. They depend
/// on the text alone; they are named, not described.
#[verifier::external_body]
pub(crate) fn parse_link(s: &str) -> (r: Option<Link>)
    ensures
        opt_link(r) == url_parts(s@),
{
    let u = url::Url::parse(s).ok()?;
    Some(Link {
        scheme: u.scheme().to_owned(),
        username: u.username().to_owned(),
        password: u.password().map(str::to_owned),
        host: u.host_str().map(str::to_owned),
        port: u.port(),
        path: u.path().to_owned(),
        query: u.query().map(str::to_owned),
        fragment: u.fragment().map(str::to_owned),
    })
}

/// The number that the two bytes behind a percent sign write: two hexadecimal
/// digits, or a plus sign and one.
pub open spec fn percent_value(a: u8, b: u8) -> Option<int> {
    match codec::hex_digit(b as char) {
        Some(lo) => match codec::hex_digit(a as char) {
            Some(hi) => Some(hi * 16 + lo),
            None => if a as char == '+' {
                Some(lo)
            } else {
                None
            },
        },
        None => None,
    }
}

/// Percent decoding of bytes from position `i` on. Every byte gives the
/// character with its number.
pub open spec fn decoded_from(b: Seq<u8>, i: int) -> Seq<char>
    decreases b.len() - i,
{
    if i >= b.len() {
        Seq::empty()
    } else if b[i] == 37 && i + 2 < b.len() && percent_value(b[i + 1], b[i + 2]) is Some {
        seq![percent_value(b[i + 1], b[i + 2])->0 as char] + decoded_from(b, i + 3)
    } else {
        seq![b[i] as char] + decoded_from(b, i + 1)
    }
}

/// The percent decoded form of a text.
pub open spec fn url_decoded(s: Seq<char>) -> Seq<char> {
    decoded_from(vstd::utf8::encode_utf8(s), 0)
}

fn read_percent(a: u8, b: u8) -> (r: Option<u8>)
    ensures
        match r {
            Some(v) => percent_value(a, b) == Some(v as int),
            None => percent_value(a, b) is None,
        },
{
    match codec::hex_value(b as char) {
        Some(lo) => match codec::hex_value(a as char) {
            Some(hi) => Some(hi * 16 + lo),
            None => if a as char == '+' {
                Some(lo)
            } else {
                None
            },
        },
        None => None,
    }
}

pub fn url_decode(s: &[char]) -> (r: Vec<char>)
    ensures
        r@ == url_decoded(s@),
{
    let t = text::string_of(s);
    let b = codec::bytes_of(t.as_str());
    let mut out: Vec<char> = Vec::new();
    let mut i: usize = 0;
    let ghost whole = decoded_from(b@, 0);
    assert(out@ + whole =~= whole);
    while i < b.len()
        invariant
            i <= b@.len(),
            whole == out@ + decoded_from(b@, i as int),
        decreases b@.len() - i,
    {
        let ghost before = out@;
        if b[i] == 37 && b.len() - i > 2 {
            if let Some(v) = read_percent(b[i + 1], b[i + 2]) {
                out.push(v as char);
                proof {
                    assert(before + (seq![v as char] + decoded_from(b@, i + 3)) =~= out@
                        + decoded_from(b@, i + 3));
                }
                i += 3;
                continue;
            }
        }
        out.push(b[i] as char);
        proof {
            assert(before + (seq![b@[i as int] as char] + decoded_from(b@, i + 1)) =~= out@
                + decoded_from(b@, i + 1));
        }
        i += 1;
    }
    assert(out@ + Seq::<char>::empty() =~= out@);
    out
}

/// The binding that a piece of a query makes; empty pieces make none. The key
/// before an equals sign counts in lower case.
pub open spec fn query_pair(part: Seq<char>) -> Option<(Seq<char>, Seq<char>)> {
    if part.len() == 0 {
        None
    } else {
        Some(
            match text::cut(part, '=') {
                Some((k, v)) => (text::lowered(url_decoded(k)), url_decoded(v)),
                None => (url_decoded(part), Seq::empty()),
            },
        )
    }
}

pub open spec fn query_from(parts: Seq<Seq<char>>) -> Seq<(Seq<char>, Seq<char>)>
    decreases parts.len(),
{
    if parts.len() == 0 {
        Seq::empty()
    } else {
        let head = query_from(parts.drop_last());
        match query_pair(parts.last()) {
            Some(p) => head.push(p),
            None => head,
        }
    }
}

/// The bindings of a query.
pub open spec fn query_pairs(q: Seq<char>) -> Seq<(Seq<char>, Seq<char>)> {
    let body = match text::after_prefix(q, "?"@) {
        Some(r) => r,
        None => q,
    };
    query_from(text::pieces(body, "&"@))
}

pub fn parse_query(q: &[char]) -> (r: Bindings)
    ensures
        r@ == query_pairs(q@),
{
    let body = match text::strip_prefix(q, "?") {
        Some(r) => r,
        None => q,
    };
    let parts = text::split(body, "&");
    let ghost ps = text::texts(parts@);
    let mut map = Bindings::new();
    let mut i: usize = 0;
    assert(ps.take(0) =~= Seq::<Seq<char>>::empty());
    while i < parts.len()
        invariant
            i <= parts@.len(),
            ps == text::texts(parts@),
            map@ == query_from(ps.take(i as int)),
        decreases parts@.len() - i,
    {
        proof {
            assert(ps.take(i + 1).drop_last() =~= ps.take(i as int));
            assert(ps.take(i + 1).last() == parts@[i as int]@);
        }
        let part: &[char] = parts[i];
        if part.len() > 0 {
            match text::split_once(part, '=') {
                Some((k, v)) => {
                    let key = url_decode(k);
                    map.set(text::lower(key.as_slice()), url_decode(v));
                },
                None => {
                    let none: Vec<char> = Vec::new();
                    assert(none@ =~= Seq::<char>::empty());
                    map.set(url_decode(part), none);
                },
            }
        }
        i += 1;
    }
    assert(ps.take(i as int) =~= ps);
    map
}

// ---- laws ----
/// A text that a link can hold as it is: ASCII without percent signs and ampersands.
pub open spec fn plain(s: Seq<char>) -> bool {
    forall|i: int| 0 <= i < s.len() ==> (#[trigger] s[i]) <= '\u{7f}' && s[i] != '%' && s[i] != '&'
}

/// A plain text without equals signs that is not empty and does not begin with a
/// question mark.
pub open spec fn plain_key(s: Seq<char>) -> bool {
    &&& plain(s)
    &&& s.len() > 0
    &&& s[0] != '?'
    &&& forall|i: int| 0 <= i < s.len() ==> (#[trigger] s[i]) != '='
}

/// Keys and values as the text of a query.
pub open spec fn query_text(b: Seq<(Seq<char>, Seq<char>)>) -> Seq<char>
    decreases b.len(),
{
    if b.len() == 0 {
        Seq::empty()
    } else if b.len() == 1 {
        b[0].0 + seq!['='] + b[0].1
    } else {
        (b[0].0 + seq!['='] + b[0].1) + seq!['&'] + query_text(b.skip(1))
    }
}

/// Whether keys and values can be written as the text of a query.
pub open spec fn plain_pairs(b: Seq<(Seq<char>, Seq<char>)>) -> bool {
    forall|i: int| 0 <= i < b.len() ==> plain_key((#[trigger] b[i]).0) && plain(b[i].1)
}

proof fn lemma_ascii_char(c: char)
    requires
        c <= '\u{7f}',
    ensures
        '\0' <= c,
        (c as u8) as int == c as int,
        (c as u8) as char == c,
{
    vstd::utf8::char_is_scalar(c);
    vstd::utf8::char_u32_cast(c, c as u32);
}

proof fn lemma_plain_bytes(b: Seq<u8>, s: Seq<char>, i: int)
    requires
        0 <= i <= s.len(),
        b.len() == s.len(),
        plain(s),
        forall|j: int| 0 <= j < s.len() ==> #[trigger] b[j] == s[j] as u8,
    ensures
        decoded_from(b, i) == s.skip(i),
    decreases s.len() - i,
{
    if i < s.len() {
        lemma_plain_bytes(b, s, i + 1);
        assert(b[i] == s[i] as u8);
        assert(s[i] != '%' && s[i] <= '\u{7f}');
        lemma_ascii_char(s[i]);
        assert(b[i] != 37);
        assert(b[i] as char == s[i]);
        assert(seq![s[i]] + s.skip(i + 1) =~= s.skip(i));
    } else {
        assert(s.skip(i) =~= Seq::<char>::empty());
    }
}

proof fn lemma_ascii_bytes(s: Seq<char>)
    requires
        forall|i: int| 0 <= i < s.len() ==> (#[trigger] s[i]) <= '\u{7f}',
    ensures
        vstd::utf8::encode_utf8(s).len() == s.len(),
        forall|j: int|
            0 <= j < s.len() ==> #[trigger] vstd::utf8::encode_utf8(s)[j] == s[j] as u8,
{
    assert forall|i: int| 0 <= i < s.len() implies '\0' <= #[trigger] s[i] <= '\u{7f}' by {
        lemma_ascii_char(s[i]);
    }
    assert(vstd::utf8::is_ascii_chars(s));
    vstd::utf8::is_ascii_chars_encode_utf8(s);
}

/// Percent decoding leaves a plain text as it is.
pub proof fn law_plain_text_is_kept(s: Seq<char>)
    requires
        plain(s),
    ensures
        url_decoded(s) == s,
{
    lemma_ascii_bytes(s);
    lemma_plain_bytes(vstd::utf8::encode_utf8(s), s, 0);
    assert(s.skip(0) =~= s);
}

/// A percent sign with two hexadecimal digits stands for the character that they
/// number.
pub proof fn law_percent_is_decoded(hi: char, lo: char, rest: Seq<char>)
    requires
        codec::hex_digit(hi) is Some,
        codec::hex_digit(lo) is Some,
        plain(rest),
    ensures
        url_decoded(seq!['%', hi, lo] + rest) == seq![
            (codec::hex_digit(hi)->0 * 16 + codec::hex_digit(lo)->0) as char,
        ] + rest,
{
    let s = seq!['%', hi, lo] + rest;
    assert forall|i: int| 0 <= i < s.len() implies (#[trigger] s[i]) <= '\u{7f}' by {
        if i >= 3 {
            assert(s[i] == rest[i - 3]);
        }
    }
    lemma_ascii_bytes(s);
    let b = vstd::utf8::encode_utf8(s);
    assert(b[0] == s[0] as u8 && b[1] == s[1] as u8 && b[2] == s[2] as u8);
    lemma_ascii_char(hi);
    lemma_ascii_char(lo);
    assert(b[1] as char == hi && b[2] as char == lo);
    let t = b.skip(3);
    assert forall|j: int| 0 <= j < rest.len() implies #[trigger] t[j] == rest[j] as u8 by {
        assert(s[j + 3] == rest[j]);
        assert(b[j + 3] == s[j + 3] as u8);
    }
    lemma_plain_bytes(t, rest, 0);
    lemma_decoded_skip(b, 3, 3);
    assert(rest.skip(0) =~= rest);
}

proof fn lemma_decoded_skip(b: Seq<u8>, k: int, i: int)
    requires
        0 <= k <= i,
        k <= b.len(),
    ensures
        decoded_from(b, i) == decoded_from(b.skip(k), i - k),
    decreases b.len() - i,
{
    if i < b.len() {
        lemma_decoded_skip(b, k, i + 1);
        if i + 2 < b.len() {
            lemma_decoded_skip(b, k, i + 3);
        }
        let t = b.skip(k);
        assert(t[i - k] == b[i]);
        if i + 2 < b.len() {
            assert(t[i - k + 1] == b[i + 1] && t[i - k + 2] == b[i + 2]);
        }
    }
}

proof fn lemma_query_front(p: Seq<char>, rest: Seq<Seq<char>>)
    requires
        query_pair(p) is Some,
    ensures
        query_from(seq![p] + rest) == seq![query_pair(p)->0] + query_from(rest),
    decreases rest.len(),
{
    let all = seq![p] + rest;
    if rest.len() == 0 {
        assert(all.drop_last() =~= Seq::<Seq<char>>::empty());
        assert(all.last() == p);
        assert(query_from(Seq::<Seq<char>>::empty()) =~= Seq::empty());
        assert(query_from(all) =~= seq![query_pair(p)->0] + query_from(rest));
    } else {
        assert(all.drop_last() =~= seq![p] + rest.drop_last());
        assert(all.last() == rest.last());
        lemma_query_front(p, rest.drop_last());
        assert(query_from(all) == (match query_pair(rest.last()) {
            Some(x) => query_from(all.drop_last()).push(x),
            None => query_from(all.drop_last()),
        }));
        assert(query_from(all) =~= seq![query_pair(p)->0] + query_from(rest));
    }
}

proof fn lemma_pair(k: Seq<char>, v: Seq<char>)
    requires
        plain_key(k),
        plain(v),
    ensures
        query_pair(k + seq!['='] + v) == Some((text::lowered(k), v)),
        forall|i: int|
            0 <= i < (k + seq!['='] + v).len() ==> (#[trigger] (k + seq!['='] + v)[i]) != '&',
{
    let p = k + seq!['='] + v;
    let n = k.len() as int;
    text::lemma_sep_from(p, seq!['='], 0);
    assert(p[n] == '=');
    assert(seq!['='].contains('=')) by {
        assert(seq!['='][0] == '=');
    }
    assert forall|i: int| 0 <= i < n implies !seq!['='].contains(#[trigger] p[i]) by {
        assert(p[i] == k[i]);
    }
    assert(text::sep_from(p, seq!['='], 0) == Some(n));
    assert(p.take(n) =~= k);
    assert(p.skip(n + 1) =~= v);
    law_plain_text_is_kept(k);
    law_plain_text_is_kept(v);
    assert forall|i: int| 0 <= i < p.len() implies (#[trigger] p[i]) != '&' by {
        if i < n {
            assert(p[i] == k[i]);
        } else if i > n {
            assert(p[i] == v[i - n - 1]);
        }
    }
}

proof fn lemma_query_pieces(b: Seq<(Seq<char>, Seq<char>)>)
    requires
        plain_pairs(b),
        b.len() > 0,
    ensures
        query_from(text::pieces(query_text(b), "&"@)) == Seq::new(
            b.len(),
            |i: int| (text::lowered(b[i].0), b[i].1),
        ),
    decreases b.len(),
{
    reveal_strlit("&");
    assert("&"@ =~= seq!['&']);
    assert("&"@[0] == '&');
    let (k, v) = b[0];
    let p = k + seq!['='] + v;
    lemma_pair(k, v);
    let none = Seq::<Seq<char>>::empty();
    assert forall|i: int| 0 <= i < p.len() implies !"&"@.contains(#[trigger] p[i]) by {}
    let want = Seq::new(b.len(), |i: int| (text::lowered(b[i].0), b[i].1));
    if b.len() == 1 {
        text::lemma_pieces_cut(p, '&', Seq::empty(), "&"@);
        lemma_query_front(p, none);
        assert(seq![p] + none =~= seq![p]);
        assert(query_from(seq![p]) =~= want);
    } else {
        let rest = b.skip(1);
        assert forall|i: int| 0 <= i < rest.len() implies plain_key((#[trigger] rest[i]).0)
            && plain(rest[i].1) by {
            assert(rest[i] == b[i + 1]);
        }
        lemma_query_pieces(rest);
        text::lemma_pieces_cut(p, '&', query_text(rest), "&"@);
        lemma_query_front(p, text::pieces(query_text(rest), "&"@));
        assert(query_from(text::pieces(query_text(b), "&"@)) =~= want) by {
            assert forall|i: int| 0 < i < b.len() implies want[i] == (
                text::lowered(rest[i - 1].0),
                rest[i - 1].1,
            ) by {
                assert(rest[i - 1] == b[i]);
            }
        }
    }
}

/// A query that is written from keys and values reads back to them: the values as they
/// are, and the keys in lower case.
pub proof fn law_query_reads_back(b: Seq<(Seq<char>, Seq<char>)>)
    requires
        plain_pairs(b),
        b.len() > 0,
    ensures
        query_pairs(query_text(b)) == Seq::new(
            b.len(),
            |i: int| (text::lowered(b[i].0), b[i].1),
        ),
{
    reveal_strlit("?");
    assert(plain_key(b[0].0));
    assert(query_text(b)[0] == b[0].0[0]);
    assert(!text::starts(query_text(b), "?"@)) by {
        assert("?"@[0] == '?');
        if text::starts(query_text(b), "?"@) {
            assert(query_text(b).take(1)[0] == query_text(b)[0]);
        }
    }
    lemma_query_pieces(b);
}

/// A part of a query without an equals sign is a key without a value, and an empty part is
/// nothing.
pub proof fn law_bare_key(k: Seq<char>)
    requires
        plain(k),
        k.len() > 0,
        forall|i: int| 0 <= i < k.len() ==> (#[trigger] k[i]) != '=',
    ensures
        query_pair(k) == Some((k, Seq::<char>::empty())),
        query_pair(Seq::empty()) is None,
{
    assert(!k.contains('='));
    text::law_cut(k, '=', Seq::empty());
    law_plain_text_is_kept(k);
}

} // verus!
