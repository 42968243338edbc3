//! The client hello.

use vstd::prelude::*;

use crate::codec;
use crate::proxynet::reality::auth;
use crate::proxynet::reality::schedule;
use crate::proxynet::reality::writer;
use crate::proxynet::reality::writer::TlsWriter;
use crate::random;
use crate::text;
use crate::utils;

verus! {

/// A hello and the private key of its key share.
#[derive(Debug)]
pub struct ClientHello {
    pub handshake: Vec<u8>,
    pub private_key: [u8; 32],
}

/// A name in ASCII; one that IDNA refuses is kept.
pub open spec fn alabel(name: Seq<char>) -> Seq<char> {
    if utils::all_ascii(name) {
        name
    } else {
        match utils::idna_ascii(name) {
            Some(a) => a,
            None => name,
        }
    }
}

/// An extension: its number and its content as a vector.
pub open spec fn extension(id: int, b: Seq<u8>) -> Seq<u8> {
    codec::be16_bytes(id) + writer::vector(2, b)
}

pub open spec fn sni_extension(name: Seq<char>) -> Seq<u8> {
    extension(
        0,
        writer::vector(
            2,
            seq![0u8] + writer::vector(2, vstd::utf8::encode_utf8(alabel(name))),
        ),
    )
}

pub open spec fn groups_extension() -> Seq<u8> {
    extension(10, writer::vector(2, seq![0u8, 0x1du8]))
}

/// The signature algorithms that are offered.
pub open spec fn algorithms() -> Seq<u8> {
    seq![
        0x04u8, 0x03u8, 0x08u8, 0x04u8, 0x04u8, 0x01u8, 0x05u8, 0x03u8, 0x08u8, 0x05u8, 0x05u8,
        0x01u8, 0x08u8, 0x06u8, 0x06u8, 0x01u8,
    ]
}

pub open spec fn algorithms_extension() -> Seq<u8> {
    extension(13, writer::vector(2, algorithms()))
}

pub open spec fn versions_extension() -> Seq<u8> {
    extension(43, writer::vector(1, seq![3u8, 4u8]))
}

pub open spec fn psk_extension() -> Seq<u8> {
    extension(45, writer::vector(1, seq![1u8]))
}

pub open spec fn key_share_extension(public: Seq<u8>) -> Seq<u8> {
    extension(51, writer::vector(2, seq![0u8, 0x1du8] + writer::vector(2, public)))
}

/// The names of application protocols, each as a vector.
pub open spec fn protocol_names(alpn: Seq<Seq<char>>) -> Seq<u8>
    decreases alpn.len(),
{
    if alpn.len() == 0 {
        Seq::empty()
    } else {
        protocol_names(alpn.drop_last()) + writer::vector(1, vstd::utf8::encode_utf8(alpn.last()))
    }
}

pub open spec fn alpn_extension(alpn: Seq<Seq<char>>) -> Seq<u8> {
    if alpn.len() == 0 {
        Seq::empty()
    } else {
        extension(16, writer::vector(2, protocol_names(alpn)))
    }
}

/// All extensions.
pub open spec fn extensions(name: Seq<char>, alpn: Seq<Seq<char>>, public: Seq<u8>) -> Seq<u8> {
    sni_extension(name) + groups_extension() + algorithms_extension() + versions_extension()
        + psk_extension() + key_share_extension(public) + alpn_extension(alpn)
}

/// The hello: random bytes, a session id of zeros, three cipher suites, and the
/// extensions.
pub open spec fn hello_bytes(
    name: Seq<char>,
    alpn: Seq<Seq<char>>,
    random: Seq<u8>,
    public: Seq<u8>,
) -> Seq<u8> {
    seq![1u8] + writer::vector(
        3,
        seq![3u8, 3u8] + random + seq![32u8] + schedule::zeros(32) + writer::vector(
            2,
            seq![0x13u8, 1u8, 0x13u8, 2u8, 0x13u8, 3u8],
        ) + writer::vector(1, seq![0u8]) + writer::vector(2, extensions(name, alpn, public)),
    )
}

fn to_alabel(name: &str) -> (r: String)
    ensures
        r@ == alabel(name@),
{
    let c = text::chars_of(name);
    if utils::is_all_ascii(c.as_slice()) {
        return name.to_owned();
    }
    match utils::idna_to_ascii(name) {
        Some(a) => a,
        None => name.to_owned(),
    }
}

/// Writes an extension whose content is given.
fn write_extension(w: &mut TlsWriter, id: u16, b: &[u8])
    ensures
        final(w)@ == old(w)@ + extension(id as int, b@),
{
    let ghost start = w@;
    w.write_u16(id);
    let ghost g = w@;
    let m: usize = w.begin_vector16();
    w.write_bytes(b);
    proof {
        assert(w@.take(m - 2) =~= g);
        assert(w@.skip(m as int) =~= b@);
    }
    w.end_vector(m, 2);
    assert(w@ =~= start + extension(id as int, b@));
}

/// Bytes as a vector whose length takes `prefix` bytes.
fn framed(b: &[u8], prefix: usize) -> (r: Vec<u8>)
    requires
        1 <= prefix <= 2,
    ensures
        r@ == writer::vector(prefix as int, b@),
{
    let mut w = TlsWriter::new(b.len());
    let m: usize = if prefix == 1 {
        w.begin_vector8()
    } else {
        w.begin_vector16()
    };
    w.write_bytes(b);
    proof {
        assert(w@.skip(m as int) =~= b@);
        assert(w@.take(m - prefix) =~= Seq::empty());
    }
    w.end_vector(m, prefix);
    assert(w@ =~= writer::vector(prefix as int, b@));
    w.into_vec()
}

fn write_sni(w: &mut TlsWriter, name: &str)
    ensures
        final(w)@ == old(w)@ + sni_extension(name@),
{
    let ascii = to_alabel(name);
    let b = codec::bytes_of(ascii.as_str());
    let inner = framed(b.as_slice(), 2);
    let mut entry: Vec<u8> = Vec::new();
    entry.push(0);
    codec::append(&mut entry, inner.as_slice());
    assert(entry@ =~= seq![0u8] + inner@);
    let list = framed(entry.as_slice(), 2);
    write_extension(w, 0, list.as_slice());
}

fn write_groups(w: &mut TlsWriter)
    ensures
        final(w)@ == old(w)@ + groups_extension(),
{
    let g: [u8; 2] = [0, 0x1d];
    assert(g@ =~= seq![0u8, 0x1du8]);
    let v = framed(g.as_slice(), 2);
    write_extension(w, 10, v.as_slice());
}

fn write_sigalgs(w: &mut TlsWriter)
    ensures
        final(w)@ == old(w)@ + algorithms_extension(),
{
    let a: [u8; 16] = [
        0x04, 0x03, 0x08, 0x04, 0x04, 0x01, 0x05, 0x03, 0x08, 0x05, 0x05, 0x01, 0x08, 0x06, 0x06,
        0x01,
    ];
    assert(a@ =~= algorithms());
    let v = framed(a.as_slice(), 2);
    write_extension(w, 13, v.as_slice());
}

fn write_versions(w: &mut TlsWriter)
    ensures
        final(w)@ == old(w)@ + versions_extension(),
{
    let a: [u8; 2] = [3, 4];
    assert(a@ =~= seq![3u8, 4u8]);
    let v = framed(a.as_slice(), 1);
    write_extension(w, 43, v.as_slice());
}

fn write_psk(w: &mut TlsWriter)
    ensures
        final(w)@ == old(w)@ + psk_extension(),
{
    let a: [u8; 1] = [1];
    assert(a@ =~= seq![1u8]);
    let v = framed(a.as_slice(), 1);
    write_extension(w, 45, v.as_slice());
}

fn write_key_share(w: &mut TlsWriter, public: &[u8])
    ensures
        final(w)@ == old(w)@ + key_share_extension(public@),
{
    let share = framed(public, 2);
    let mut entry: Vec<u8> = Vec::new();
    entry.push(0);
    entry.push(0x1d);
    assert(entry@ =~= seq![0u8, 0x1du8]);
    codec::append(&mut entry, share.as_slice());
    let list = framed(entry.as_slice(), 2);
    write_extension(w, 51, list.as_slice());
}

fn write_alpn(w: &mut TlsWriter, alpn: &[String])
    requires
        alpn@.len() > 0,
    ensures
        final(w)@ == old(w)@ + alpn_extension(text::strings(alpn@)),
{
    let ghost names = text::strings(alpn@);
    let mut list: Vec<u8> = Vec::new();
    let mut i: usize = 0;
    assert(list@ =~= protocol_names(names.take(0)));
    while i < alpn.len()
        invariant
            i <= alpn@.len(),
            names == text::strings(alpn@),
            list@ == protocol_names(names.take(i as int)),
        decreases alpn@.len() - i,
    {
        proof {
            assert(names.take(i + 1).drop_last() =~= names.take(i as int));
            assert(names.take(i + 1).last() == alpn@[i as int]@);
        }
        let b = codec::bytes_of(alpn[i].as_str());
        let v = framed(b.as_slice(), 1);
        codec::append(&mut list, v.as_slice());
        i += 1;
    }
    assert(names.take(i as int) =~= names);
    let v = framed(list.as_slice(), 2);
    write_extension(w, 16, v.as_slice());
}

fn build_extensions(name: &str, alpn: &[String], public: &[u8]) -> (r: Vec<u8>)
    ensures
        r@ == extensions(name@, text::strings(alpn@), public@),
{
    let mut w = TlsWriter::new(512);
    write_sni(&mut w, name);
    assert(w@ =~= sni_extension(name@));
    write_groups(&mut w);
    write_sigalgs(&mut w);
    write_versions(&mut w);
    write_psk(&mut w);
    write_key_share(&mut w, public);
    let ghost before = w@;
    if alpn.len() > 0 {
        write_alpn(&mut w, alpn);
    }
    assert(w@ =~= before + alpn_extension(text::strings(alpn@)));
    w.into_vec()
}

/// Builds a hello with the given random bytes and key.
pub fn build_with(
    server_name: &str,
    alpn: &[String],
    random: &[u8],
    private_key: [u8; 32],
    public_key: [u8; 32],
) -> (r: ClientHello)
    requires
        random@.len() == 32,
    ensures
        r.handshake@ == hello_bytes(server_name@, text::strings(alpn@), random@, public_key@),
        r.private_key == private_key,
{
    let exts = build_extensions(server_name, alpn, public_key.as_slice());
    let ev = framed(exts.as_slice(), 2);
    let suites: [u8; 6] = [0x13, 1, 0x13, 2, 0x13, 3];
    assert(suites@ =~= seq![0x13u8, 1u8, 0x13u8, 2u8, 0x13u8, 3u8]);
    let sv = framed(suites.as_slice(), 2);
    let comp: [u8; 1] = [0];
    assert(comp@ =~= seq![0u8]);
    let cv = framed(comp.as_slice(), 1);
    let mut w = TlsWriter::new(1024);
    w.write_u8(1);
    assert(w@ =~= seq![1u8]);
    let body: usize = w.begin_vector24();
    let ghost start = w@;
    w.write_u16(0x0303);
    let ghost v0 = codec::be16_bytes(0x0303);
    assert(v0 =~= seq![3u8, 3u8]);
    w.write_bytes(random);
    let ghost g = w@;
    w.write_u8(32);
    assert(w@ =~= g + seq![32u8]);
    w.write_zeros(32);
    w.write_bytes(sv.as_slice());
    w.write_bytes(cv.as_slice());
    w.write_bytes(ev.as_slice());
    proof {
        let content = seq![3u8, 3u8] + random@ + seq![32u8] + schedule::zeros(32) + sv@ + cv@ + ev@;
        assert(w@ =~= start + content);
        assert(w@.skip(body as int) =~= content);
        assert(w@.take(body - 3) =~= seq![1u8]);
    }
    w.end_vector(body, 3);
    ClientHello { handshake: w.into_vec(), private_key }
}

/// Builds a hello with random bytes and a new key.
pub fn build(server_name: &str, alpn: &[String]) -> (r: ClientHello)
    ensures
        auth::x25519_public(r.private_key@).len() == 32,
        exists|random: Seq<u8>|
            random.len() == 32 && r.handshake@ == #[trigger] hello_bytes(
                server_name@,
                text::strings(alpn@),
                random,
                auth::x25519_public(r.private_key@),
            ),
{
    let (private_key, public_key) = auth::x25519_generate();
    let random = random::random_bytes(32);
    build_with(server_name, alpn, random.as_slice(), private_key, public_key)
}

// ---- laws ----
/// The random bytes and the session id of a hello stand where the session id is
/// sealed from and into.
pub proof fn law_hello_layout(
    name: Seq<char>,
    alpn: Seq<Seq<char>>,
    random: Seq<u8>,
    public: Seq<u8>,
)
    requires
        random.len() == 32,
    ensures
        ({
            let h = hello_bytes(name, alpn, random, public);
            &&& h.len() >= 71
            &&& h[0] == 1
            &&& h.subrange(6, 38) == random
            &&& h[38] == auth::SESSION_ID_SIZE
            &&& h.subrange(39, 71) == schedule::zeros(32)
            &&& auth::blanked(h) == h
        }),
{
    let h = hello_bytes(name, alpn, random, public);
    assert(h.subrange(6, 38) =~= random);
    assert(h.subrange(39, 71) =~= schedule::zeros(32));
    assert(auth::blanked(h) =~= h);
}

/// The content of an extension in a list of extensions: each has its number, its length
/// and its content.
pub open spec fn extension_content(exts: Seq<u8>, id: int) -> Option<Seq<u8>>
    decreases exts.len(),
{
    if exts.len() < 4 {
        None
    } else {
        let n = exts[2] * 256 + exts[3];
        if exts.len() < 4 + n {
            None
        } else if exts[0] * 256 + exts[1] == id {
            Some(exts.subrange(4, 4 + n))
        } else {
            extension_content(exts.skip(4 + n), id)
        }
    }
}

proof fn lemma_extension(id: int, b: Seq<u8>, rest: Seq<u8>, other: int)
    requires
        0 <= id < 0x1_0000,
        b.len() < 0x1_0000,
    ensures
        extension_content(extension(id, b) + rest, other) == (if other == id {
            Some(b)
        } else {
            extension_content(rest, other)
        }),
{
    let e = extension(id, b) + rest;
    let n = b.len() as int;
    codec::law_high_byte_first(id);
    assert(e[0] == codec::be16_bytes(id)[0] && e[1] == codec::be16_bytes(id)[1]);
    assert(e[2] == n / 256 && e[3] == n % 256);
    assert(e.subrange(4, 4 + n) =~= b);
    assert(e.skip(4 + n) =~= rest);
}

/// What a hello offers: the name of the server, the group X25519 with the public key, the
/// eight signature algorithms, TLS 1.3, keys by Diffie-Hellman only, and the
/// application protocols, where there are any.
#[verifier::spinoff_prover]
#[verifier::rlimit(60)]
pub proof fn law_hello_offers(name: Seq<char>, alpn: Seq<Seq<char>>, public: Seq<u8>, host: Seq<u8>)
    requires
        host == vstd::utf8::encode_utf8(alabel(name)),
        host.len() < 60000,
        public.len() == 32,
        protocol_names(alpn).len() < 60000,
    ensures
        ({
            let e = extensions(name, alpn, public);
            let n = host.len() as int;
            let sni = extension_content(e, 0)->0;
            &&& extension_content(e, 0) is Some
            &&& sni.len() == n + 5
            &&& sni[0] * 256 + sni[1] == n + 3
            &&& sni[2] == 0
            &&& sni[3] * 256 + sni[4] == n
            &&& sni.skip(5) == host
            &&& extension_content(e, 10) == Some(seq![0u8, 2u8, 0u8, 29u8])
            &&& extension_content(e, 13) == Some(
                seq![
                    0u8, 16u8, 4u8, 3u8, 8u8, 4u8, 4u8, 1u8, 5u8, 3u8, 8u8, 5u8, 5u8, 1u8, 8u8, 6u8,
                    6u8, 1u8,
                ],
            )
            &&& extension_content(e, 43) == Some(seq![2u8, 3u8, 4u8])
            &&& extension_content(e, 45) == Some(seq![1u8, 1u8])
            &&& extension_content(e, 51) == Some(
                seq![0u8, 36u8, 0u8, 29u8, 0u8, 32u8] + public,
            )
            &&& (alpn.len() == 0 ==> extension_content(e, 16) is None)
            &&& (alpn.len() > 0 ==> extension_content(e, 16) is Some && extension_content(
                e,
                16,
            )->0.skip(2) == protocol_names(alpn))
        }),
{
    let e = extensions(name, alpn, public);
    let n = host.len() as int;
    let sni = writer::vector(2, seq![0u8] + writer::vector(2, host));
    let groups = writer::vector(2, seq![0u8, 0x1du8]);
    let algs = writer::vector(2, algorithms());
    let versions = writer::vector(1, seq![3u8, 4u8]);
    let psk = writer::vector(1, seq![1u8]);
    let share = writer::vector(2, seq![0u8, 0x1du8] + writer::vector(2, public));
    let protocols = writer::vector(2, protocol_names(alpn));
    let r6 = alpn_extension(alpn);
    let r5 = key_share_extension(public) + r6;
    let r4 = psk_extension() + r5;
    let r3 = versions_extension() + r4;
    let r2 = algorithms_extension() + r3;
    let r1 = groups_extension() + r2;
    assert(e =~= sni_extension(name) + r1);
    assert(sni.len() == n + 5);
    assert(sni[3] * 256 + sni[4] == n);
    assert(sni.skip(5) =~= host);
    assert(groups =~= seq![0u8, 2u8, 0u8, 29u8]);
    assert(algs =~= seq![
        0u8, 16u8, 4u8, 3u8, 8u8, 4u8, 4u8, 1u8, 5u8, 3u8, 8u8, 5u8, 5u8, 1u8, 8u8, 6u8, 6u8, 1u8,
    ]);
    assert(versions =~= seq![2u8, 3u8, 4u8]);
    assert(psk =~= seq![1u8, 1u8]);
    assert(share =~= seq![0u8, 36u8, 0u8, 29u8, 0u8, 32u8] + public);
    assert forall|other: int| #[trigger]
        extension_content(e, other) == (if other == 0 {
            Some(sni)
        } else if other == 10 {
            Some(groups)
        } else if other == 13 {
            Some(algs)
        } else if other == 43 {
            Some(versions)
        } else if other == 45 {
            Some(psk)
        } else if other == 51 {
            Some(share)
        } else {
            extension_content(r6, other)
        }) by {
        lemma_extension(0, sni, r1, other);
        lemma_extension(10, groups, r2, other);
        lemma_extension(13, algs, r3, other);
        lemma_extension(43, versions, r4, other);
        lemma_extension(45, psk, r5, other);
        lemma_extension(51, share, r6, other);
    }
    if alpn.len() > 0 {
        lemma_extension(16, protocols, Seq::empty(), 16);
        assert(r6 + Seq::<u8>::empty() =~= r6);
        assert(protocols.skip(2) =~= protocol_names(alpn));
    }
}

/// The frame of a hello: its type 1, its length, version 3.3, the random bytes, a session
/// id of 32 bytes, the three suites of TLS 1.3, no compression, and the extensions
/// behind their length.
pub proof fn law_hello_frame(
    name: Seq<char>,
    alpn: Seq<Seq<char>>,
    random: Seq<u8>,
    public: Seq<u8>,
)
    requires
        random.len() == 32,
        extensions(name, alpn, public).len() < 0x1_0000,
    ensures
        ({
            let h = hello_bytes(name, alpn, random, public);
            let n = h.len() as int;
            &&& n == 83 + extensions(name, alpn, public).len()
            &&& h[0] == 1
            &&& h[1] * 0x10000 + h[2] * 0x100 + h[3] == n - 4
            &&& h[4] == 3 && h[5] == 3
            &&& h.subrange(6, 38) == random
            &&& h[38] == 32
            &&& h.subrange(71, 79) == seq![0u8, 6u8, 0x13u8, 1u8, 0x13u8, 2u8, 0x13u8, 3u8]
            &&& h[79] == 1 && h[80] == 0
            &&& h[81] * 256 + h[82] == n - 83
            &&& h.skip(83) == extensions(name, alpn, public)
        }),
{
    lemma_frame(random, extensions(name, alpn, public));
}

proof fn lemma_frame(random: Seq<u8>, x: Seq<u8>)
    requires
        random.len() == 32,
        x.len() < 0x1_0000,
    ensures
        ({
            let h = seq![1u8] + writer::vector(
                3,
                seq![3u8, 3u8] + random + seq![32u8] + schedule::zeros(32) + writer::vector(
                    2,
                    seq![0x13u8, 1u8, 0x13u8, 2u8, 0x13u8, 3u8],
                ) + writer::vector(1, seq![0u8]) + writer::vector(2, x),
            );
            let n = h.len() as int;
            &&& n == 83 + x.len()
            &&& h[0] == 1
            &&& h[1] * 0x10000 + h[2] * 0x100 + h[3] == n - 4
            &&& h[4] == 3 && h[5] == 3
            &&& h.subrange(6, 38) == random
            &&& h[38] == 32
            &&& h.subrange(71, 79) == seq![0u8, 6u8, 0x13u8, 1u8, 0x13u8, 2u8, 0x13u8, 3u8]
            &&& h[79] == 1 && h[80] == 0
            &&& h[81] * 256 + h[82] == n - 83
            &&& h.skip(83) == x
        }),
{
    let suites = seq![0u8, 6u8, 0x13u8, 1u8, 0x13u8, 2u8, 0x13u8, 3u8];
    assert(writer::vector(2, seq![0x13u8, 1u8, 0x13u8, 2u8, 0x13u8, 3u8]) =~= suites);
    assert(writer::vector(1, seq![0u8]) =~= seq![1u8, 0u8]);
    let l = writer::length_bytes(x.len() as int, 2);
    assert(l[0] * 256 + l[1] == x.len());
    let body = seq![3u8, 3u8] + random + seq![32u8] + schedule::zeros(32) + suites + seq![
        1u8,
        0u8,
    ] + (l + x);
    let n = 83 + x.len() as int;
    assert(body.len() == n - 4);
    let k = writer::length_bytes(n - 4, 3);
    assert(k[0] * 0x10000 + k[1] * 0x100 + k[2] == n - 4);
    let h = seq![1u8] + (k + body);
    assert forall|i: int| 0 <= i < body.len() implies #[trigger] h[4 + i] == body[i] by {}
    assert(h[4] == body[0] && h[5] == body[1] && h[38] == body[34]);
    assert(h.subrange(6, 38) =~= random);
    assert(h.subrange(71, 79) =~= suites);
    assert(h[79] == body[75] && h[80] == body[76]);
    assert(h[81] == l[0] && h[82] == l[1]);
    assert(h.skip(83) =~= x);
}

/// The application protocols stand in order, each behind its length.
pub proof fn law_protocol_names(alpn: Seq<Seq<char>>, p: Seq<char>, b: Seq<u8>)
    requires
        b == vstd::utf8::encode_utf8(p),
        b.len() < 256,
    ensures
        protocol_names(Seq::empty()) == Seq::<u8>::empty(),
        protocol_names(alpn.push(p)) == protocol_names(alpn) + seq![b.len() as u8] + b,
{
    assert(alpn.push(p).drop_last() =~= alpn);
    let v = writer::vector(1, b);
    assert(v =~= seq![b.len() as u8] + b);
    assert(protocol_names(alpn) + (seq![b.len() as u8] + b) =~= protocol_names(alpn) + seq![
        b.len() as u8,
    ] + b);
}

} // verus!
