//! Handshake messages: how they are cut out of records, the server hello and
//! the certificate.

use vstd::prelude::*;

use crate::codec;
use crate::proxynet::error::{ProxyError, ProxyErrorCode};
use crate::proxynet::reality::auth;
use crate::proxynet::reality::record;
use crate::proxynet::reality::record::{
    CipherSuite, ContentType, RecStep, RecView, TlsRecordStream,
};
use crate::text;

verus! {

// ---- cutting ----
/// What is told of a message that ends too early.
pub open spec fn ended_text(what: Seq<char>, n: nat, have: nat) -> Seq<char> {
    "The peer's message ended before "@ + what + ": needed "@ + text::dec(n)
        + " more bytes, had "@ + text::dec(have) + "."@
}

/// The first `n` bytes and the rest, or why there are not so many.
pub open spec fn taken(s: Seq<u8>, n: nat, what: Seq<char>) -> Result<
    (Seq<u8>, Seq<u8>),
    Seq<char>,
> {
    if s.len() < n {
        Err(ended_text(what, n, s.len()))
    } else {
        Ok((s.take(n as int), s.skip(n as int)))
    }
}

fn take<'a>(s: &'a [u8], n: usize, what: &str) -> (r: Result<(&'a [u8], &'a [u8]), ProxyError>)
    ensures
        match taken(s@, n as nat, what@) {
            Ok((a, b)) => r is Ok && (r->Ok_0).0@ == a && (r->Ok_0).1@ == b,
            Err(m) => r is Err && r->Err_0.says(ProxyErrorCode::InvalidResponse, m),
        },
{
    let total: usize = s.len();
    if total < n {
        let mut m = text::chars_of("The peer's message ended before ");
        text::append_str(&mut m, what);
        text::append_str(&mut m, ": needed ");
        let d = text::format_dec(n as u64);
        text::append(&mut m, d.as_slice());
        text::append_str(&mut m, " more bytes, had ");
        let h = text::format_dec(total as u64);
        text::append(&mut m, h.as_slice());
        text::append_str(&mut m, ".");
        return Err(auth::hs_error(&m));
    }
    let a = &s[0..n];
    let b = &s[n..total];
    assert(a@ =~= s@.take(n as int));
    assert(b@ =~= s@.skip(n as int));
    Ok((a, b))
}

// ---- the server hello ----
/// The random bytes of a request to try again.
pub open spec fn retry_random() -> Seq<u8> {
    seq![
        0xCFu8, 0x21u8, 0xADu8, 0x74u8, 0xE5u8, 0x9Au8, 0x61u8, 0x11u8, 0xBEu8, 0x1Du8, 0x8Cu8,
        0x02u8, 0x1Eu8, 0x65u8, 0xB8u8, 0x91u8, 0xC2u8, 0xA2u8, 0x11u8, 0x16u8, 0x7Au8, 0xBBu8,
        0x8Cu8, 0x5Eu8, 0x07u8, 0x9Eu8, 0x09u8, 0xE2u8, 0xC8u8, 0xA8u8, 0x33u8, 0x9Cu8,
    ]
}

/// What a server hello chose.
#[derive(Debug)]
pub struct ServerHello {
    pub suite: CipherSuite,
    pub key_share: [u8; 32],
}

/// What the extensions of a server hello say: the key share, and whether they
/// choose TLS 1.3. A later one wins.
pub open spec fn choices(
    exts: Seq<u8>,
    share: Option<Seq<u8>>,
    tls13: bool,
) -> Result<(Option<Seq<u8>>, bool), Seq<char>>
    decreases exts.len(),
{
    if exts.len() == 0 {
        Ok((share, tls13))
    } else {
        match taken(exts, 2, "an extension type"@) {
            Err(m) => Err(m),
            Ok((t, a)) => match taken(a, 2, "an extension length"@) {
                Err(m) => Err(m),
                Ok((l, b)) => match taken(b, codec::be16(l[0], l[1]) as nat, "extension"@) {
                    Err(m) => Err(m),
                    Ok((data, rest)) => {
                        let ty = codec::be16(t[0], t[1]);
                        choices(rest, chosen_share(ty, data, share), chosen_version(ty, data, tls13))
                    },
                },
            },
        }
    }
}

pub open spec fn chosen_version(ty: int, data: Seq<u8>, tls13: bool) -> bool {
    tls13 || ty == 43 && data == seq![3u8, 4u8]
}

pub open spec fn chosen_share(ty: int, data: Seq<u8>, share: Option<Seq<u8>>) -> Option<Seq<u8>> {
    if ty == 51 && data.len() >= 36 && codec::be16(data[0], data[1]) == 0x1d && codec::be16(
        data[2],
        data[3],
    ) == 32 {
        Some(data.subrange(4, 36))
    } else {
        share
    }
}

/// Why a suite is refused.
pub open spec fn suite_text(id: int) -> Seq<char> {
    "The server chose cipher suite 0x"@ + seq![
        codec::upper_hex(id / 4096 % 16),
        codec::upper_hex(id / 256 % 16),
        codec::upper_hex(id / 16 % 16),
        codec::upper_hex(id % 16),
    ] + ", which we did not offer."@
}

/// The end of a server hello, behind the session id.
pub open spec fn hello_tail(b: Seq<u8>) -> Result<(CipherSuite, Seq<u8>), Seq<char>> {
    match taken(b, 2, "the cipher suite"@) {
        Err(m) => Err(m),
        Ok((id, c)) => match taken(c, 1, "the compression method"@) {
            Err(m) => Err(m),
            Ok((comp, d)) => if comp[0] != 0 {
                Err("The server selected a compression method; TLS 1.3 has none."@)
            } else {
                match record::suite_of(codec::be16(id[0], id[1])) {
                    None => Err(suite_text(codec::be16(id[0], id[1]))),
                    Some(suite) => match taken(d, 2, "the extensions length"@) {
                        Err(m) => Err(m),
                        Ok((l, e)) => match taken(
                            e,
                            codec::be16(l[0], l[1]) as nat,
                            "the extensions"@,
                        ) {
                            Err(m) => Err(m),
                            Ok((exts, _)) => match choices(exts, None, false) {
                                Err(m) => Err(m),
                                Ok((share, tls13)) => if !tls13 {
                                    Err("The server did not select TLS 1.3."@)
                                } else {
                                    match share {
                                        None => Err(
                                            "The server's key_share is missing or is not X25519."@,
                                        ),
                                        Some(k) => Ok((suite, k)),
                                    }
                                },
                            },
                        },
                    },
                }
            },
        },
    }
}

/// What a server hello chose in answer to a client hello, or why it is refused.
pub open spec fn server_hello_of(raw: Seq<u8>, hello: Seq<u8>) -> Result<
    (CipherSuite, Seq<u8>),
    Seq<char>,
> {
    if raw.len() < 4 {
        Err("short ServerHello"@)
    } else {
        match taken(raw.skip(4), 34, "the version and random"@) {
            Err(m) => Err(m),
            Ok((vr, a)) => if vr.skip(2) == retry_random() {
                Err("The server sent a HelloRetryRequest, which this client does not implement."@)
            } else {
                match taken(a, 1, "the session id length"@) {
                    Err(m) => Err(m),
                    Ok((n, b)) => match taken(b, n[0] as nat, "the session id"@) {
                        Err(m) => Err(m),
                        Ok((echo, c)) => if echo != hello.subrange(39, 71) {
                            Err(
                                "The server echoed a different session id than we sent. The ClientHello was altered in flight."@,
                            )
                        } else {
                            hello_tail(c)
                        },
                    },
                }
            },
        }
    }
}

fn refuse_suite(id: u16) -> (r: ProxyError)
    ensures
        r.says(ProxyErrorCode::InvalidResponse, suite_text(id as int)),
{
    let mut m = text::chars_of("The server chose cipher suite 0x");
    let ghost g = m@;
    m.push(codec::to_upper_hex((id / 4096 % 16) as u8));
    m.push(codec::to_upper_hex((id / 256 % 16) as u8));
    m.push(codec::to_upper_hex((id / 16 % 16) as u8));
    m.push(codec::to_upper_hex((id % 16) as u8));
    assert(m@ =~= g + seq![
        codec::upper_hex(id as int / 4096 % 16),
        codec::upper_hex(id as int / 256 % 16),
        codec::upper_hex(id as int / 16 % 16),
        codec::upper_hex(id as int % 16),
    ]);
    text::append_str(&mut m, ", which we did not offer.");
    auth::hs_error(&m)
}

fn read_choices(exts: &[u8]) -> (r: Result<(Option<[u8; 32]>, bool), ProxyError>)
    ensures
        match choices(exts@, None, false) {
            Ok((share, tls13)) => r is Ok && (r->Ok_0).1 == tls13 && (match (r->Ok_0).0 {
                Some(k) => Some(k@),
                None => None,
            }) == share,
            Err(m) => r is Err && r->Err_0.says(ProxyErrorCode::InvalidResponse, m),
        },
{
    let mut share: Option<[u8; 32]> = None;
    let mut tls13: bool = false;
    let mut rest: &[u8] = exts;
    let ghost want = choices(exts@, None, false);
    while rest.len() > 0
        invariant
            want == choices(exts@, None, false),
            want == choices(
                rest@,
                match share {
                    Some(k) => Some(k@),
                    None => None,
                },
                tls13,
            ),
        decreases rest@.len(),
    {
        let (t, a) = match take(rest, 2, "an extension type") {
            Ok(x) => x,
            Err(e) => {
                return Err(e);
            },
        };
        let (l, b) = match take(a, 2, "an extension length") {
            Ok(x) => x,
            Err(e) => {
                return Err(e);
            },
        };
        let n: usize = codec::read_be16(l[0], l[1]) as usize;
        let (data, next) = match take(b, n, "extension") {
            Ok(x) => x,
            Err(e) => {
                return Err(e);
            },
        };
        let ty: u16 = codec::read_be16(t[0], t[1]);
        if ty == 43 && data.len() == 2 && data[0] == 3 && data[1] == 4 {
            assert(data@ =~= seq![3u8, 4u8]);
            tls13 = true;
        } else {
            proof {
                if data@ == seq![3u8, 4u8] {
                    assert(data@.len() == 2 && data@[0] == 3 && data@[1] == 4);
                }
            }
        }
        if ty == 51 && data.len() >= 36 && codec::read_be16(data[0], data[1]) == 0x1d
            && codec::read_be16(data[2], data[3]) == 32 {
            let k = &data[4..36];
            assert(k@ =~= data@.subrange(4, 36));
            share = Some(auth::array32(k));
        }
        rest = next;
    }
    Ok((share, tls13))
}

fn read_tail(b: &[u8]) -> (r: Result<ServerHello, ProxyError>)
    ensures
        match hello_tail(b@) {
            Ok((s, k)) => r is Ok && r->Ok_0.suite == s && r->Ok_0.key_share@ == k
                && r->Ok_0.suite.wf(),
            Err(m) => r is Err && r->Err_0.says(ProxyErrorCode::InvalidResponse, m),
        },
{
    let (id, c) = match take(b, 2, "the cipher suite") {
        Ok(x) => x,
        Err(e) => {
            return Err(e);
        },
    };
    let (comp, d) = match take(c, 1, "the compression method") {
        Ok(x) => x,
        Err(e) => {
            return Err(e);
        },
    };
    if comp[0] != 0 {
        return Err(
            auth::hs_err("The server selected a compression method; TLS 1.3 has none."),
        );
    }
    let suite_id: u16 = codec::read_be16(id[0], id[1]);
    let suite = match CipherSuite::from_id(suite_id) {
        Some(s) => s,
        None => {
            return Err(refuse_suite(suite_id));
        },
    };
    let (l, e) = match take(d, 2, "the extensions length") {
        Ok(x) => x,
        Err(e) => {
            return Err(e);
        },
    };
    let n: usize = codec::read_be16(l[0], l[1]) as usize;
    let (exts, _) = match take(e, n, "the extensions") {
        Ok(x) => x,
        Err(e) => {
            return Err(e);
        },
    };
    match read_choices(exts) {
        Err(e) => Err(e),
        Ok((share, tls13)) => {
            if !tls13 {
                return Err(auth::hs_err("The server did not select TLS 1.3."));
            }
            match share {
                None => Err(
                    auth::hs_err("The server's key_share is missing or is not X25519."),
                ),
                Some(k) => Ok(ServerHello { suite, key_share: k }),
            }
        },
    }
}

/// Reads a server hello.
pub fn parse_server_hello(raw: &[u8], client_hello: &[u8]) -> (r: Result<ServerHello, ProxyError>)
    requires
        client_hello@.len() >= 71,
    ensures
        match server_hello_of(raw@, client_hello@) {
            Ok((s, k)) => r is Ok && r->Ok_0.suite == s && r->Ok_0.key_share@ == k
                && r->Ok_0.suite.wf(),
            Err(m) => r is Err && r->Err_0.says(ProxyErrorCode::InvalidResponse, m),
        },
{
    let total: usize = raw.len();
    if total < 4 {
        return Err(auth::hs_err("short ServerHello"));
    }
    let body = &raw[4..total];
    assert(body@ =~= raw@.skip(4));
    let (vr, a) = match take(body, 34, "the version and random") {
        Ok(x) => x,
        Err(e) => {
            return Err(e);
        },
    };
    let retry: [u8; 32] = [
        0xCF, 0x21, 0xAD, 0x74, 0xE5, 0x9A, 0x61, 0x11, 0xBE, 0x1D, 0x8C, 0x02, 0x1E, 0x65, 0xB8,
        0x91, 0xC2, 0xA2, 0x11, 0x16, 0x7A, 0xBB, 0x8C, 0x5E, 0x07, 0x9E, 0x09, 0xE2, 0xC8, 0xA8,
        0x33, 0x9C,
    ];
    assert(retry@ =~= retry_random());
    let random = &vr[2..34];
    assert(random@ =~= vr@.skip(2));
    if codec::same_bytes(random, retry.as_slice()) {
        return Err(
            auth::hs_err(
                "The server sent a HelloRetryRequest, which this client does not implement.",
            ),
        );
    }
    let (n, b) = match take(a, 1, "the session id length") {
        Ok(x) => x,
        Err(e) => {
            return Err(e);
        },
    };
    let (echo, c) = match take(b, n[0] as usize, "the session id") {
        Ok(x) => x,
        Err(e) => {
            return Err(e);
        },
    };
    let sent = &client_hello[39..71];
    assert(sent@ =~= client_hello@.subrange(39, 71));
    if !codec::same_bytes(echo, sent) {
        return Err(
            auth::hs_err(
                "The server echoed a different session id than we sent. The ClientHello was altered in flight.",
            ),
        );
    }
    read_tail(c)
}

// ---- the certificate message ----
/// The first certificate of a certificate message, or why there is none.
pub open spec fn leaf_of(body: Seq<u8>) -> Result<Seq<u8>, Seq<char>> {
    match taken(body, 1, "the certificate request context length"@) {
        Err(m) => Err(m),
        Ok((n, a)) => match taken(a, n[0] as nat, "the certificate request context"@) {
            Err(m) => Err(m),
            Ok((_, b)) => match taken(b, 3, "the certificate list length"@) {
                Err(m) => Err(m),
                Ok((l, c)) => match taken(
                    c,
                    codec::be24(l[0], l[1], l[2]) as nat,
                    "the certificate list"@,
                ) {
                    Err(m) => Err(m),
                    Ok((list, _)) => if list.len() == 0 {
                        Err("The server sent an empty certificate list."@)
                    } else {
                        match taken(list, 3, "the leaf certificate length"@) {
                            Err(m) => Err(m),
                            Ok((k, d)) => match taken(
                                d,
                                codec::be24(k[0], k[1], k[2]) as nat,
                                "the leaf certificate"@,
                            ) {
                                Err(m) => Err(m),
                                Ok((leaf, _)) => Ok(leaf),
                            },
                        }
                    },
                },
            },
        },
    }
}

pub fn extract_leaf(body: &[u8]) -> (r: Result<Vec<u8>, ProxyError>)
    ensures
        match leaf_of(body@) {
            Ok(c) => r is Ok && r->Ok_0@ == c,
            Err(m) => r is Err && r->Err_0.says(ProxyErrorCode::InvalidResponse, m),
        },
{
    let (n, a) = match take(body, 1, "the certificate request context length") {
        Ok(x) => x,
        Err(e) => {
            return Err(e);
        },
    };
    let (_, b) = match take(a, n[0] as usize, "the certificate request context") {
        Ok(x) => x,
        Err(e) => {
            return Err(e);
        },
    };
    let (l, c) = match take(b, 3, "the certificate list length") {
        Ok(x) => x,
        Err(e) => {
            return Err(e);
        },
    };
    let (list, _) = match take(c, codec::read_be24(l[0], l[1], l[2]), "the certificate list") {
        Ok(x) => x,
        Err(e) => {
            return Err(e);
        },
    };
    if list.len() == 0 {
        return Err(auth::hs_err("The server sent an empty certificate list."));
    }
    let (k, d) = match take(list, 3, "the leaf certificate length") {
        Ok(x) => x,
        Err(e) => {
            return Err(e);
        },
    };
    match take(d, codec::read_be24(k[0], k[1], k[2]), "the leaf certificate") {
        Ok((leaf, _)) => Ok(codec::copy(leaf)),
        Err(e) => Err(e),
    }
}

// ---- DER ----
/// The number that bytes write, the most significant first.
pub open spec fn be_number(b: Seq<u8>) -> int
    decreases b.len(),
{
    if b.len() == 0 {
        0
    } else {
        be_number(b.drop_last()) * 256 + b.last()
    }
}

/// A length behind a tag, and how many bytes it takes.
pub open spec fn der_length(b: Seq<u8>) -> Option<(int, int)> {
    if b.len() < 2 {
        None
    } else if b[1] < 0x80 {
        Some((b[1] as int, 1))
    } else {
        let n = b[1] as int - 0x80;
        if n == 0 || n > 4 || 1 + n >= b.len() {
            None
        } else {
            Some((be_number(b.subrange(2, 2 + n)), 1 + n))
        }
    }
}

/// The first value: its tag, its content and what follows it.
pub open spec fn der_value(b: Seq<u8>) -> Option<(u8, Seq<u8>, Seq<u8>)> {
    match der_length(b) {
        None => None,
        Some((n, l)) => if b.len() < 1 + l + n {
            None
        } else {
            Some((b[0], b.subrange(1 + l, 1 + l + n), b.skip(1 + l + n)))
        },
    }
}

/// The content of a first value with a tag, and what follows it.
pub open spec fn der_tagged(b: Seq<u8>, tag: u8) -> Option<(Seq<u8>, Seq<u8>)> {
    match der_value(b) {
        Some((t, c, r)) => if t == tag {
            Some((c, r))
        } else {
            None
        },
        None => None,
    }
}

/// What follows the first `n` values.
pub open spec fn der_skipped(b: Seq<u8>, n: nat) -> Option<Seq<u8>>
    decreases n,
{
    if n == 0 {
        Some(b)
    } else {
        match der_value(b) {
            Some((_, _, r)) => der_skipped(r, (n - 1) as nat),
            None => None,
        }
    }
}

/// The bits of a bit string in whole bytes, and what follows it.
pub open spec fn der_bits(b: Seq<u8>) -> Option<(Seq<u8>, Seq<u8>)> {
    match der_tagged(b, 3) {
        Some((c, r)) => if c.len() == 0 {
            None
        } else {
            Some((c.skip(1), r))
        },
        None => None,
    }
}

/// The public key of a certificate's body, where it is one of Ed25519: behind an
/// optional version, serial, algorithm, issuer, validity and subject.
pub open spec fn ed25519_key(tbs: Seq<u8>) -> Option<Seq<u8>> {
    let start = if tbs.len() > 0 && tbs[0] == 0xA0 {
        der_skipped(tbs, 6)
    } else {
        der_skipped(tbs, 5)
    };
    match start {
        None => None,
        Some(t) => match der_tagged(t, 0x30) {
            None => None,
            Some((spki, _)) => match der_tagged(spki, 0x30) {
                None => None,
                Some((alg, s)) => match der_tagged(alg, 6) {
                    None => None,
                    Some((oid, _)) => if oid != seq![0x2Bu8, 0x65u8, 0x70u8] {
                        None
                    } else {
                        match der_bits(s) {
                            None => None,
                            Some((pk, _)) => Some(pk),
                        }
                    },
                },
            },
        },
    }
}

/// The Ed25519 key and the signature of a certificate.
pub open spec fn ed25519_parts(der: Seq<u8>) -> Option<(Seq<u8>, Seq<u8>)> {
    match der_tagged(der, 0x30) {
        None => None,
        Some((cert, _)) => match der_tagged(cert, 0x30) {
            None => None,
            Some((tbs, rest)) => match ed25519_key(tbs) {
                None => None,
                Some(pk) => match der_skipped(rest, 1) {
                    None => None,
                    Some(r) => match der_bits(r) {
                        None => None,
                        Some((sig, _)) => if pk.len() != 32 {
                            None
                        } else {
                            Some((pk, sig))
                        },
                    },
                },
            },
        },
    }
}

fn read_der_length(b: &[u8]) -> (r: Option<(u64, usize)>)
    ensures
        (match r {
            Some((n, l)) => Some((n as int, l as int)),
            None => None,
        }) == der_length(b@),
        r is Some ==> (r->0).1 <= 5 && (r->0).0 <= 0xffff_ffff,
{
    if b.len() < 2 {
        return None;
    }
    if b[1] < 0x80 {
        return Some((b[1] as u64, 1));
    }
    let n: usize = (b[1] - 0x80) as usize;
    if n == 0 || n > 4 || 1 + n >= b.len() {
        return None;
    }
    let total: usize = b.len();
    let mut v: u64 = 0;
    let mut i: usize = 0;
    let ghost field = b@.subrange(2, 2 + n);
    assert(field.take(0).len() == 0);
    while i < n
        invariant
            i <= n <= 4,
            1 + n < b@.len() == total,
            field == b@.subrange(2, 2 + n),
            v == be_number(field.take(i as int)),
            i == 0 ==> v == 0,
            i == 1 ==> v <= 0xff,
            i == 2 ==> v <= 0xffff,
            i == 3 ==> v <= 0xff_ffff,
            v <= 0xffff_ffff,
        decreases n - i,
    {
        proof {
            assert(field.take(i + 1).drop_last() =~= field.take(i as int));
            assert(field.take(i + 1).last() == b@[2 + i]);
        }
        v = v * 256 + b[2 + i] as u64;
        i += 1;
    }
    assert(field.take(n as int) =~= field);
    Some((v, 1 + n))
}

fn read_der_value<'a>(b: &'a [u8]) -> (r: Option<(u8, &'a [u8], &'a [u8])>)
    ensures
        (match r {
            Some((t, c, rest)) => Some((t, c@, rest@)),
            None => None,
        }) == der_value(b@),
{
    let total: usize = b.len();
    let (n, l) = match read_der_length(b) {
        Some(x) => x,
        None => {
            return None;
        },
    };
    let start: usize = 1 + l;
    if total < start || ((total - start) as u64) < n {
        return None;
    }
    let len: usize = n as usize;
    let c = &b[start..start + len];
    let rest = &b[start + len..total];
    assert(c@ =~= b@.subrange(1 + l, 1 + l + n));
    assert(rest@ =~= b@.skip(1 + l + n));
    Some((b[0], c, rest))
}

fn read_der_tagged<'a>(b: &'a [u8], tag: u8) -> (r: Option<(&'a [u8], &'a [u8])>)
    ensures
        (match r {
            Some((c, rest)) => Some((c@, rest@)),
            None => None,
        }) == der_tagged(b@, tag),
{
    match read_der_value(b) {
        Some((t, c, rest)) => if t == tag {
            Some((c, rest))
        } else {
            None
        },
        None => None,
    }
}

fn skip_der<'a>(b: &'a [u8], n: usize) -> (r: Option<&'a [u8]>)
    ensures
        (match r {
            Some(rest) => Some(rest@),
            None => None,
        }) == der_skipped(b@, n as nat),
    decreases n,
{
    if n == 0 {
        return Some(b);
    }
    match read_der_value(b) {
        Some((_, _, rest)) => skip_der(rest, n - 1),
        None => None,
    }
}

fn read_der_bits<'a>(b: &'a [u8]) -> (r: Option<(&'a [u8], &'a [u8])>)
    ensures
        (match r {
            Some((c, rest)) => Some((c@, rest@)),
            None => None,
        }) == der_bits(b@),
{
    match read_der_tagged(b, 3) {
        Some((c, rest)) => {
            let n: usize = c.len();
            if n == 0 {
                return None;
            }
            let d = &c[1..n];
            assert(d@ =~= c@.skip(1));
            Some((d, rest))
        },
        None => None,
    }
}

fn read_ed25519_key<'a>(tbs: &'a [u8]) -> (r: Option<&'a [u8]>)
    ensures
        (match r {
            Some(pk) => Some(pk@),
            None => None,
        }) == ed25519_key(tbs@),
{
    let n: usize = if tbs.len() > 0 && tbs[0] == 0xA0 {
        6
    } else {
        5
    };
    let t = match skip_der(tbs, n) {
        Some(t) => t,
        None => {
            return None;
        },
    };
    let (spki, _) = match read_der_tagged(t, 0x30) {
        Some(x) => x,
        None => {
            return None;
        },
    };
    let (alg, s) = match read_der_tagged(spki, 0x30) {
        Some(x) => x,
        None => {
            return None;
        },
    };
    let (oid, _) = match read_der_tagged(alg, 6) {
        Some(x) => x,
        None => {
            return None;
        },
    };
    let want: [u8; 3] = [0x2B, 0x65, 0x70];
    assert(want@ =~= seq![0x2Bu8, 0x65u8, 0x70u8]);
    if !codec::same_bytes(oid, want.as_slice()) {
        return None;
    }
    match read_der_bits(s) {
        Some((pk, _)) => Some(pk),
        None => None,
    }
}

/// Reads the Ed25519 key and the signature of a certificate.
pub fn read_ed25519_cert(der: &[u8]) -> (r: Option<(Vec<u8>, Vec<u8>)>)
    ensures
        (match r {
            Some((pk, sig)) => Some((pk@, sig@)),
            None => None,
        }) == ed25519_parts(der@),
{
    let (cert, _) = match read_der_tagged(der, 0x30) {
        Some(x) => x,
        None => {
            return None;
        },
    };
    let (tbs, rest) = match read_der_tagged(cert, 0x30) {
        Some(x) => x,
        None => {
            return None;
        },
    };
    let pk = match read_ed25519_key(tbs) {
        Some(k) => k,
        None => {
            return None;
        },
    };
    proof {
        reveal_with_fuel(der_skipped, 2);
    }
    let after = match skip_der(rest, 1) {
        Some(x) => x,
        None => {
            return None;
        },
    };
    match read_der_bits(after) {
        Some((sig, _)) => if pk.len() != 32 {
            None
        } else {
            Some((codec::copy(pk), codec::copy(sig)))
        },
        None => None,
    }
}

/// Why a certificate is refused, if it is.
pub open spec fn reality_fault(cert: Seq<u8>, auth_key: Seq<u8>, name: Seq<char>) -> Option<
    Seq<char>,
> {
    match ed25519_parts(cert) {
        None => Some(
            "The peer presented an ordinary certificate for '"@ + name
                + "' rather than a REALITY one. The handshake was relayed to the real site — check the public key, the short id and the clock."@,
        ),
        Some((pk, sig)) => if sig.len() == 64 && crate::hash::hmac_sha512_of(auth_key, pk) == sig {
            None
        } else {
            Some(
                "The peer's certificate is not bound to our REALITY shared secret. Refusing to tunnel."@,
            )
        },
    }
}

/// Checks that a certificate is bound to the shared key.
pub fn assert_reality(cert: &[u8], auth_key: &[u8], sni: &str) -> (r: Result<(), ProxyError>)
    ensures
        match reality_fault(cert@, auth_key@, sni@) {
            None => r is Ok,
            Some(m) => r is Err && r->Err_0.says(ProxyErrorCode::AuthFailed, m),
        },
{
    match read_ed25519_cert(cert) {
        None => {
            let mut m = text::chars_of("The peer presented an ordinary certificate for '");
            text::append_str(&mut m, sni);
            text::append_str(
                &mut m,
                "' rather than a REALITY one. The handshake was relayed to the real site — check the public key, the short id and the clock.",
            );
            Err(crate::proxynet::error::error_of(ProxyErrorCode::AuthFailed, &m))
        },
        Some((pk, sig)) => {
            if !auth::verify_certificate(auth_key, pk.as_slice(), sig.as_slice()) {
                return Err(
                    auth::auth_err(
                        "The peer's certificate is not bound to our REALITY shared secret. Refusing to tunnel.",
                    ),
                );
            }
            Ok(())
        },
    }
}

// ---- messages ----
/// A handshake message: its type, all of it, and its body.
#[derive(Debug)]
pub struct HsMsg {
    pub ty: u8,
    pub raw: Vec<u8>,
    pub body: Vec<u8>,
}

/// The first message of bytes and the rest, where it is whole.
pub open spec fn message_of(b: Seq<u8>) -> Option<(Seq<u8>, Seq<u8>)> {
    if b.len() < 4 {
        None
    } else {
        let n = codec::be24(b[1], b[2], b[3]);
        if b.len() < 4 + n {
            None
        } else {
            Some((b.take(4 + n), b.skip(4 + n)))
        }
    }
}

/// What was read of the handshake: parts of messages, and data that came early.
#[verifier::ext_equal]
pub struct ReaderView {
    pub buf: Seq<u8>,
    pub leftover: Seq<u8>,
}

pub enum NextStep {
    More,
    Message(Seq<u8>),
    Fail(ProxyErrorCode, Seq<char>),
}

/// What is told of an alert.
pub open spec fn alert_text(p: Seq<u8>) -> Seq<char> {
    if p.len() >= 2 {
        "The server sent a "@ + (if p[0] == 2 {
            "fatal"@
        } else {
            "warning"@
        }) + " TLS alert, description "@ + text::dec(p[1] as nat) + "."@
    } else {
        "The server sent a malformed alert."@
    }
}

/// The next message: records are taken until one is whole.
pub open spec fn next_step(r: ReaderView, v: RecView) -> (ReaderView, RecView, NextStep)
    decreases v.inbound.len(),
    via next_step_decreases
{
    match message_of(r.buf) {
        Some((m, rest)) => (ReaderView { buf: rest, ..r }, v, NextStep::Message(m)),
        None => {
            let (w, step) = record::record_step(v);
            match step {
                RecStep::More => (r, w, NextStep::More),
                RecStep::Fail(c, m) => (r, w, NextStep::Fail(c, m)),
                RecStep::Record(t, p) => match t {
                    ContentType::ChangeCipherSpec => next_step(r, w),
                    ContentType::Alert => (
                        r,
                        w,
                        NextStep::Fail(ProxyErrorCode::InvalidResponse, alert_text(p)),
                    ),
                    ContentType::ApplicationData => if w.read is None {
                        (
                            r,
                            w,
                            NextStep::Fail(
                                ProxyErrorCode::InvalidResponse,
                                "The peer sent application data before its keys were established."@,
                            ),
                        )
                    } else {
                        next_step(ReaderView { leftover: r.leftover + p, ..r }, w)
                    },
                    ContentType::Handshake => if p.len() == 0 {
                        (
                            r,
                            w,
                            NextStep::Fail(
                                ProxyErrorCode::InvalidResponse,
                                "The peer sent a zero-length handshake record, which TLS 1.3 forbids."@,
                            ),
                        )
                    } else {
                        next_step(ReaderView { buf: r.buf + p, ..r }, w)
                    },
                },
            }
        },
    }
}

#[via_fn]
proof fn next_step_decreases(r: ReaderView, v: RecView) {
    record::lemma_record_taken(v);
}

/// What reading the next message gives.
#[derive(Debug)]
pub enum HsNext {
    More,
    Message(HsMsg),
    Fail(ProxyError),
}

/// A reader of handshake messages.
#[derive(Debug)]
pub struct HandshakeReader {
    pub buf: Vec<u8>,
    pub leftover: Vec<u8>,
}

impl View for HandshakeReader {
    type V = ReaderView;

    open spec fn view(&self) -> ReaderView {
        ReaderView { buf: self.buf@, leftover: self.leftover@ }
    }
}

fn alert_error(p: &[u8]) -> (r: ProxyError)
    ensures
        r.says(ProxyErrorCode::InvalidResponse, alert_text(p@)),
{
    if p.len() >= 2 {
        let mut m = text::chars_of("The server sent a ");
        if p[0] == 2 {
            text::append_str(&mut m, "fatal");
        } else {
            text::append_str(&mut m, "warning");
        }
        text::append_str(&mut m, " TLS alert, description ");
        let d = text::format_dec(p[1] as u64);
        text::append(&mut m, d.as_slice());
        text::append_str(&mut m, ".");
        auth::hs_error(&m)
    } else {
        auth::hs_err("The server sent a malformed alert.")
    }
}

/// Whether a message is one with the given bytes.
pub open spec fn is_message(m: HsMsg, raw: Seq<u8>) -> bool {
    m.raw@ == raw && raw.len() >= 4 && m.ty == raw[0] && m.body@ == raw.skip(4)
}

impl HandshakeReader {
    pub fn new() -> (r: Self)
        ensures
            r@ == (ReaderView { buf: Seq::empty(), leftover: Seq::empty() }),
    {
        let r = HandshakeReader { buf: Vec::new(), leftover: Vec::new() };
        assert(r@.buf =~= Seq::empty());
        assert(r@.leftover =~= Seq::empty());
        r
    }

    pub fn has_buffered(&self) -> (r: bool)
        ensures
            r == (self.buf@.len() > 0),
    {
        self.buf.len() > 0
    }

    /// Takes the first message, where it is whole.
    pub fn try_take(&mut self) -> (r: Option<HsMsg>)
        ensures
            final(self).leftover == old(self).leftover,
            match message_of(old(self).buf@) {
                Some((m, rest)) => r is Some && is_message(r->0, m) && final(self).buf@ == rest,
                None => r is None && final(self).buf@ == old(self).buf@,
            },
    {
        if self.buf.len() < 4 {
            return None;
        }
        let n: usize = codec::read_be24(self.buf[1], self.buf[2], self.buf[3]);
        if self.buf.len() < 4 + n {
            return None;
        }
        let raw = codec::take_front(&mut self.buf, 4 + n);
        let body = codec::copy(&raw.as_slice()[4..4 + n]);
        assert(body@ =~= raw@.skip(4));
        Some(HsMsg { ty: raw[0], raw, body })
    }

    /// The next message of what was read.
    pub fn next(&mut self, records: &mut TlsRecordStream) -> (r: HsNext)
        requires
            old(records).wf(),
        ensures
            final(records).wf(),
            final(records).same_uplink(*old(records)),
            final(self)@ == next_step(old(self)@, old(records)@).0,
            final(records)@ == next_step(old(self)@, old(records)@).1,
            match next_step(old(self)@, old(records)@).2 {
                NextStep::More => r is More,
                NextStep::Message(m) => r is Message && is_message(r->Message_0, m),
                NextStep::Fail(c, m) => r is Fail && r->Fail_0.says(c, m),
            },
    {
        let ghost want = next_step(self@, records@);
        loop
            invariant
                records.wf(),
                records.same_uplink(*old(records)),
                want == next_step(old(self)@, old(records)@),
                want == next_step(self@, records@),
            decreases records@.inbound.len(),
        {
            proof {
                record::lemma_record_taken(records@);
            }
            if let Some(m) = self.try_take() {
                return HsNext::Message(m);
            }
            match records.try_read_buffered() {
                Err(e) => {
                    return HsNext::Fail(e);
                },
                Ok(None) => {
                    return HsNext::More;
                },
                Ok(Some(rec)) => match rec.ty {
                    ContentType::ChangeCipherSpec => {},
                    ContentType::Alert => {
                        return HsNext::Fail(alert_error(rec.payload.as_slice()));
                    },
                    ContentType::ApplicationData => {
                        if records.read.is_none() {
                            return HsNext::Fail(
                                auth::hs_err(
                                    "The peer sent application data before its keys were established.",
                                ),
                            );
                        }
                        codec::append(&mut self.leftover, rec.payload.as_slice());
                    },
                    ContentType::Handshake => {
                        if rec.payload.len() == 0 {
                            return HsNext::Fail(
                                auth::hs_err(
                                    "The peer sent a zero-length handshake record, which TLS 1.3 forbids.",
                                ),
                            );
                        }
                        codec::append(&mut self.buf, rec.payload.as_slice());
                    },
                },
            }
        }
    }
}

/// The error of a connection that ends within the handshake.
pub fn closed_early() -> (r: ProxyError)
    ensures
        r.says(
            ProxyErrorCode::ConnectionFailed,
            "The server closed the connection in the middle of the TLS handshake. For a REALITY server that usually means it did not accept the client: check pbk, sid and sni, and that this machine's clock is roughly right."@,
        ),
{
    ProxyError::new(
        ProxyErrorCode::ConnectionFailed,
        "The server closed the connection in the middle of the TLS handshake. For a REALITY server that usually means it did not accept the client: check pbk, sid and sni, and that this machine's clock is roughly right.",
    )
}

// ---- laws ----
/// How a message is cut into pieces does not matter: one that is whole stays the
/// same, whatever comes behind it.
pub proof fn law_message_is_stable(b: Seq<u8>, more: Seq<u8>)
    requires
        message_of(b) is Some,
    ensures
        message_of(b + more) == Some(((message_of(b)->0).0, (message_of(b)->0).1 + more)),
{
    let n = codec::be24(b[1], b[2], b[3]);
    let c = b + more;
    assert(c[1] == b[1] && c[2] == b[2] && c[3] == b[3]);
    assert(c.take(4 + n) =~= b.take(4 + n));
    assert(c.skip(4 + n) =~= b.skip(4 + n) + more);
}

/// A server hello that answers with one of our suites, our session id, TLS 1.3 and a
/// public key for X25519 is accepted, with that suite and key.
pub proof fn law_server_hello_reads_back(
    head: Seq<u8>,
    random: Seq<u8>,
    echo: Seq<u8>,
    hi: u8,
    lo: u8,
    share: Seq<u8>,
    hello: Seq<u8>,
)
    requires
        head.len() == 6,
        random.len() == 32,
        random != retry_random(),
        echo.len() == 32,
        hello.len() >= 71,
        echo == hello.subrange(39, 71),
        record::suite_of(hi * 256 + lo) is Some,
        share.len() == 32,
    ensures
        server_hello_of(
            head + random + seq![32u8] + echo + seq![
                hi,
                lo,
                0u8,
                0u8,
                46u8,
                0u8,
                51u8,
                0u8,
                36u8,
                0u8,
                29u8,
                0u8,
                32u8,
            ] + share + seq![0u8, 43u8, 0u8, 2u8, 3u8, 4u8],
            hello,
        ) == Ok::<(CipherSuite, Seq<u8>), Seq<char>>(
            (record::suite_of(hi * 256 + lo)->0, share),
        ),
{
    let exts = seq![0u8, 51u8, 0u8, 36u8, 0u8, 29u8, 0u8, 32u8] + share + seq![
        0u8,
        43u8,
        0u8,
        2u8,
        3u8,
        4u8,
    ];
    let tail = seq![hi, lo, 0u8, 0u8, 46u8] + exts;
    let raw = head + random + seq![32u8] + echo + seq![
        hi,
        lo,
        0u8,
        0u8,
        46u8,
        0u8,
        51u8,
        0u8,
        36u8,
        0u8,
        29u8,
        0u8,
        32u8,
    ] + share + seq![0u8, 43u8, 0u8, 2u8, 3u8, 4u8];
    assert(raw =~= head + random + seq![32u8] + echo + tail);
    let a = raw.skip(4);
    assert(a.take(34).skip(2) =~= random);
    let b = a.skip(34);
    assert(b[0] == 32);
    let c = b.skip(1);
    assert(c.take(32) =~= echo);
    assert(c.skip(32) =~= tail);
    lemma_tail(hi, lo, exts, share);
}

proof fn lemma_tail(hi: u8, lo: u8, exts: Seq<u8>, share: Seq<u8>)
    requires
        share.len() == 32,
        record::suite_of(hi * 256 + lo) is Some,
        exts == seq![0u8, 51u8, 0u8, 36u8, 0u8, 29u8, 0u8, 32u8] + share + seq![
            0u8,
            43u8,
            0u8,
            2u8,
            3u8,
            4u8,
        ],
    ensures
        hello_tail(seq![hi, lo, 0u8, 0u8, 46u8] + exts) == Ok::<(CipherSuite, Seq<u8>), Seq<char>>(
            (record::suite_of(hi * 256 + lo)->0, share),
        ),
{
    let t = seq![hi, lo, 0u8, 0u8, 46u8] + exts;
    let c = t.skip(2);
    let d = c.skip(1);
    let e = d.skip(2);
    assert(t.take(2)[0] == hi && t.take(2)[1] == lo);
    assert(c.take(1)[0] == 0);
    assert(d.take(2)[0] == 0 && d.take(2)[1] == 46);
    assert(e =~= exts);
    assert(exts.len() == 46);
    assert(e.take(46) =~= exts);
    lemma_choices(exts, share);
}

proof fn lemma_choices(exts: Seq<u8>, share: Seq<u8>)
    requires
        share.len() == 32,
        exts == seq![0u8, 51u8, 0u8, 36u8, 0u8, 29u8, 0u8, 32u8] + share + seq![
            0u8,
            43u8,
            0u8,
            2u8,
            3u8,
            4u8,
        ],
    ensures
        choices(exts, None, false) == Ok::<(Option<Seq<u8>>, bool), Seq<char>>(
            (Some(share), true),
        ),
{
    let a = exts.skip(2);
    let b = a.skip(2);
    assert(exts.take(2)[0] == 0 && exts.take(2)[1] == 51);
    assert(a.take(2)[0] == 0 && a.take(2)[1] == 36);
    let data = b.take(36);
    assert(data[0] == 0 && data[1] == 29 && data[2] == 0 && data[3] == 32);
    assert(data.subrange(4, 36) =~= share);
    assert(chosen_share(51, data, None) == Some(share));
    let rest = b.skip(36);
    assert(rest =~= seq![0u8, 43u8, 0u8, 2u8, 3u8, 4u8]);
    let c = rest.skip(2);
    let d = c.skip(2);
    assert(rest.take(2)[0] == 0 && rest.take(2)[1] == 43);
    assert(c.take(2)[0] == 0 && c.take(2)[1] == 2);
    assert(d.take(2) =~= seq![3u8, 4u8]);
    assert(d.skip(2) =~= Seq::<u8>::empty());
    let none = Seq::<u8>::empty();
    assert(choices(none, Some(share), true) == Ok::<(Option<Seq<u8>>, bool), Seq<char>>(
        (Some(share), true),
    ));
    assert(choices(rest, Some(share), false) == choices(none, Some(share), true));
}

/// A hello that echoes another session id than ours is refused.
pub proof fn law_other_session_is_refused(raw: Seq<u8>, hello: Seq<u8>)
    requires
        raw.len() >= 71,
        raw[38] == 32,
        raw.subrange(39, 71) != hello.subrange(39, 71),
    ensures
        server_hello_of(raw, hello) is Err,
{
    let a = raw.skip(4);
    let b = a.skip(34);
    assert(b.take(1)[0] == raw[38]);
    assert(b.skip(1).take(32) =~= raw.subrange(39, 71));
}

/// A certificate is accepted where it holds an Ed25519 key and its signature is the
/// HMAC-SHA512 of that key under the shared key, and only there.
pub proof fn law_certificate_is_bound(cert: Seq<u8>, auth_key: Seq<u8>, name: Seq<char>)
    ensures
        reality_fault(cert, auth_key, name) is None <==> exists|key: Seq<u8>|
            ed25519_parts(cert) == Some(
                (key, #[trigger] crate::hash::hmac_sha512_of(auth_key, key)),
            ) && crate::hash::hmac_sha512_of(auth_key, key).len() == 64,
{
    if reality_fault(cert, auth_key, name) is None {
        let (pk, sig) = ed25519_parts(cert)->0;
        assert(ed25519_parts(cert) == Some((pk, crate::hash::hmac_sha512_of(auth_key, pk))));
    }
}

/// The leaf of a certificate message is its first certificate: behind an empty context
/// and the length of the list stand the length of the leaf and the leaf.
pub proof fn law_leaf_reads_back(leaf: Seq<u8>, rest: Seq<u8>, list: Seq<u8>, one: Seq<u8>)
    requires
        list.len() == 3,
        one.len() == 3,
        one[0] * 0x10000 + one[1] * 0x100 + one[2] == leaf.len(),
        list[0] * 0x10000 + list[1] * 0x100 + list[2] == 3 + leaf.len() + rest.len(),
    ensures
        leaf_of(seq![0u8] + list + one + leaf + rest) == Ok::<Seq<u8>, Seq<char>>(leaf),
{
    let body = seq![0u8] + list + one + leaf + rest;
    let a = body.skip(1);
    assert(body.take(1)[0] == 0);
    assert(a.skip(0) =~= a);
    assert(a.take(3) =~= list);
    let c = a.skip(3);
    assert(c =~= one + leaf + rest);
    assert(c.take(c.len() as int) =~= c);
    assert(c.take(3) =~= one);
    assert(c.skip(3).take(leaf.len() as int) =~= leaf);
}

/// A message of a handshake is as long as the three bytes behind its type say, and what
/// follows belongs to the next one.
pub proof fn law_message_is_cut(ty: u8, body: Seq<u8>, rest: Seq<u8>)
    requires
        body.len() < 0x1000000,
    ensures
        ({
            let n = body.len() as int;
            let m = seq![ty, (n / 0x10000) as u8, (n / 0x100 % 0x100) as u8, (n % 0x100) as u8]
                + body;
            &&& message_of(m + rest) == Some((m, rest))
            &&& message_of(m) == Some((m, Seq::<u8>::empty()))
            &&& (n > 0 ==> message_of(m.drop_last()) is None)
        }),
{
    let n = body.len() as int;
    let h = seq![ty, (n / 0x10000) as u8, (n / 0x100 % 0x100) as u8, (n % 0x100) as u8];
    let m = h + body;
    let t = m + rest;
    assert(t[1] == h[1] && t[2] == h[2] && t[3] == h[3]);
    assert(m[1] == h[1] && m[2] == h[2] && m[3] == h[3]);
    assert(codec::be24(h[1], h[2], h[3]) == n);
    assert(t.take(4 + n) =~= m);
    assert(t.skip(4 + n) =~= rest);
    assert(m.take(4 + n) =~= m);
    assert(m.skip(4 + n) =~= Seq::<u8>::empty());
    if n > 0 {
        let d = m.drop_last();
        assert(d[1] == h[1] && d[2] == h[2] && d[3] == h[3]);
    }
}

} // verus!
