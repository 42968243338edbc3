use hmac::Mac;
use rust_clash::proxynet::error::ProxyErrorCode;
use rust_clash::proxynet::reality::auth::{
    decode_pbk, derive_auth_key, parse_short_id, seal_session_id, verify_certificate,
};
use rust_clash::proxynet::reality::handshake::{
    build_finished, derive_handshake_secrets, handshake, verify_finished, HsStep, RealityHandshake,
};
use rust_clash::proxynet::reality::hello::build_with;
use rust_clash::proxynet::reality::messages::{
    assert_reality, closed_early, extract_leaf, parse_server_hello, read_ed25519_cert,
    HandshakeReader, HsNext,
};
use rust_clash::proxynet::reality::record::{
    CipherSuite, ContentType, RecordProtection, TlsRecordStream,
};
use rust_clash::proxynet::reality::schedule::{
    build_nonce, derive_secret, expand_label, extract, finished_verify, traffic_keys, HashKind,
};
use rust_clash::proxynet::reality::stream::{RealityTlsStream, TlsRead};
use rust_clash::proxynet::reality::writer::TlsWriter;

fn vector(prefix: usize, body: &[u8]) -> Vec<u8> {
    let mut out = (body.len() as u32).to_be_bytes()[4 - prefix..].to_vec();
    out.extend_from_slice(body);
    out
}

fn message(ty: u8, body: &[u8]) -> Vec<u8> {
    let mut out = vec![ty];
    out.extend(vector(3, body));
    out
}

fn der(tag: u8, body: &[u8]) -> Vec<u8> {
    let mut out = vec![tag];
    if body.len() < 0x80 {
        out.push(body.len() as u8);
    } else {
        out.push(0x82);
        out.extend((body.len() as u16).to_be_bytes());
    }
    out.extend_from_slice(body);
    out
}

fn certificate(key: &[u8; 32], signature: &[u8], oid: &[u8]) -> Vec<u8> {
    let mut bits = vec![0u8];
    bits.extend_from_slice(key);
    let spki = [der(0x30, &der(6, oid)), der(3, &bits)].concat();
    let tbs = [
        der(0xA0, &der(2, &[2])),
        der(2, &[1]),
        der(0x30, &[]),
        der(0x30, &[]),
        der(0x30, &[]),
        der(0x30, &[]),
        der(0x30, &spki),
    ]
    .concat();
    let mut sig = vec![0u8];
    sig.extend_from_slice(signature);
    der(0x30, &[der(0x30, &tbs), der(0x30, &[]), der(3, &sig)].concat())
}

fn public_of(private: &[u8; 32]) -> [u8; 32] {
    x25519_dalek::PublicKey::from(&x25519_dalek::StaticSecret::from(*private)).to_bytes()
}

fn agree(private: &[u8; 32], public: &[u8; 32]) -> [u8; 32] {
    x25519_dalek::StaticSecret::from(*private)
        .diffie_hellman(&x25519_dalek::PublicKey::from(*public))
        .to_bytes()
}

fn bound_signature(auth_key: &[u8; 32], key: &[u8; 32]) -> Vec<u8> {
    let mut mac = hmac::Hmac::<sha2::Sha512>::new_from_slice(auth_key).unwrap();
    mac.update(key);
    mac.finalize().into_bytes().to_vec()
}

const SERVER: [u8; 32] = [7; 32];
const EPHEMERAL: [u8; 32] = [9; 32];

fn server_hello(session: &[u8], suite: u16) -> Vec<u8> {
    let mut exts = vec![0, 0x2b, 0, 2, 3, 4, 0, 0x33, 0, 0x24, 0, 0x1d, 0, 0x20];
    exts.extend(public_of(&EPHEMERAL));
    let mut body = vec![3, 3];
    body.extend([5u8; 32]);
    body.extend(vector(1, session));
    body.extend(suite.to_be_bytes());
    body.push(0);
    body.extend(vector(2, &exts));
    message(2, &body)
}

struct Server {
    records: TlsRecordStream,
    reader: TlsRecordStream,
    answer: Vec<u8>,
    master: Vec<u8>,
    transcript: Vec<u8>,
    suite: CipherSuite,
}

/// What a server answers that holds the key, with a certificate of its own making.
fn serve(h: &RealityHandshake, first: &[u8], id: u16, cert: &[u8]) -> Server {
    let suite = CipherSuite::from_id(id).unwrap();
    let hello = &first[5..];
    let sh = server_hello(&hello[39..71], id);
    let mut records = TlsRecordStream::new();
    let mut answer = records.stage(ContentType::Handshake, &sh);
    answer.extend(records.stage(ContentType::ChangeCipherSpec, &[1]));
    let mut transcript = [hello, &sh].concat();
    let shared = agree(&EPHEMERAL, &public_of(&h.private_key));
    let s = derive_handshake_secrets(suite.hash, &shared, &suite.hash.digest(&transcript));
    records.write = Some(RecordProtection::new(suite, &s.server));
    let mut list = vec![0u8];
    list.extend(vector(3, &[vector(3, cert), vec![0, 0]].concat()));
    let flight = [message(8, &[0, 0]), message(11, &list), message(15, &[8, 7, 0, 0])].concat();
    answer.extend(records.stage(ContentType::Handshake, &flight));
    transcript.extend(flight);
    let fin = build_finished(suite.hash, &s.server, &suite.hash.digest(&transcript));
    answer.extend(records.stage(ContentType::Handshake, &fin));
    transcript.extend(fin);
    let mut reader = TlsRecordStream::new();
    reader.read = Some(RecordProtection::new(suite, &s.client));
    Server { records, reader, answer, master: s.master, transcript, suite }
}

fn begin() -> (RealityHandshake, Vec<u8>) {
    let pbk = base64::Engine::encode(
        &base64::engine::general_purpose::URL_SAFE_NO_PAD,
        public_of(&SERVER),
    );
    handshake("s.example", &pbk, Some("ab01"), &["h2".to_string()], 0x01020304).unwrap()
}

#[test]
fn a_whole_reality_handshake() {
    for id in [0x1301u16, 0x1302, 0x1303] {
        let (mut h, first) = begin();
        assert_eq!(&first[..3], &[0x16, 3, 1]);
        let auth = h.auth_key;
        let cert = certificate(&[3; 32], &bound_signature(&auth, &[3; 32]), &[0x2b, 0x65, 0x70]);
        let mut s = serve(&h, &first, id, &cert);
        // The server learns the same key from its own half.
        let mut other = [0u8; 32];
        derive_auth_key(&mut other, &SERVER, &public_of(&h.private_key), &first[11..43]).unwrap();
        assert_eq!(other, auth);
        let (a, b) = s.answer.split_at(60);
        h.feed(a);
        assert!(matches!(h.run(), HsStep::More));
        h.feed(b);
        let last = match h.run() {
            HsStep::Done(b) => b,
            _ => panic!("the handshake is not done"),
        };
        assert_eq!(&last[..6], &[0x14, 3, 3, 0, 1, 1]);
        s.reader.push_inbound(&last[6..]);
        let fin = s.reader.try_read_buffered().unwrap().unwrap();
        assert_eq!(fin.payload[0], 20);
        // Data goes both ways under the last keys.
        let t = s.suite.hash.digest(&s.transcript);
        let mut c = vec![0u8; s.suite.hash.len()];
        let mut d = c.clone();
        derive_secret(s.suite.hash, &s.master, b"c ap traffic", &t, &mut c);
        derive_secret(s.suite.hash, &s.master, b"s ap traffic", &t, &mut d);
        s.reader.read = Some(RecordProtection::new(s.suite, &c));
        s.records.write = Some(RecordProtection::new(s.suite, &d));
        let mut stream: RealityTlsStream = h.into_stream();
        stream.begin_write(b"up");
        s.reader.push_inbound(stream.records.out.rest());
        let up = s.reader.try_read_buffered().unwrap().unwrap();
        assert_eq!((up.ty, up.payload), (ContentType::ApplicationData, b"up".to_vec()));
        stream.feed(&s.records.stage(ContentType::Handshake, &message(4, b"ticket")));
        stream.feed(&s.records.stage(ContentType::ApplicationData, b""));
        stream.feed(&s.records.stage(ContentType::ApplicationData, b"down"));
        assert!(matches!(stream.read(9), TlsRead::Data(d) if d == b"down"));
        assert!(matches!(stream.read(9), TlsRead::More));
        stream.feed(&s.records.stage(ContentType::Alert, &[1, 0]));
        assert!(matches!(stream.read(9), TlsRead::End));
    }
}

#[test]
fn handshakes_that_fail() {
    let fail = |change: &dyn Fn(&RealityHandshake, &[u8]) -> Vec<u8>| {
        let (mut h, first) = begin();
        let b = change(&h, &first);
        h.feed(&b);
        match h.run() {
            HsStep::Fail(e) => e,
            _ => panic!("the handshake did not fail"),
        }
    };
    let oid = [0x2b, 0x65, 0x70];
    // A certificate of the site that is borrowed.
    let e = fail(&|h, first| serve(h, first, 0x1301, &certificate(&[3; 32], &[0; 64], &[1, 2])).answer);
    assert_eq!(e.code, ProxyErrorCode::AuthFailed);
    assert!(e.message.contains("an ordinary certificate for 's.example'"));
    // A certificate whose signature is not bound to the key.
    let e = fail(&|h, first| serve(h, first, 0x1301, &certificate(&[3; 32], &[0; 64], &oid)).answer);
    assert_eq!(e.code, ProxyErrorCode::AuthFailed);
    assert!(e.message.contains("not bound to our REALITY shared secret"));
    // Another session id.
    let e = fail(&|_, _| {
        TlsRecordStream::new().stage(ContentType::Handshake, &server_hello(&[1; 32], 0x1301))
    });
    assert_eq!(e.code, ProxyErrorCode::InvalidResponse);
    assert!(e.message.starts_with("The server echoed a different session id"));
    // Another message than a hello.
    let e = fail(&|_, _| TlsRecordStream::new().stage(ContentType::Handshake, &message(8, &[])));
    assert_eq!(e.message, "Expected a ServerHello, got 8");
    // A changed record.
    let e = fail(&|h, first| {
        let mut b = serve(h, first, 0x1301, &certificate(&[3; 32], &[0; 64], &oid)).answer;
        *b.last_mut().unwrap() ^= 1;
        b
    });
    assert_eq!(e.code, ProxyErrorCode::AuthFailed);
    assert!(e.message.starts_with("A TLS record from the peer failed authentication"));
    // An unencrypted message behind the hello.
    let e = fail(&|_, first| {
        let both = [server_hello(&first[44..76], 0x1301), message(8, &[])].concat();
        TlsRecordStream::new().stage(ContentType::Handshake, &both)
    });
    assert_eq!(e.message, "The peer sent unencrypted handshake bytes after its ServerHello.");
    assert_eq!(closed_early().code, ProxyErrorCode::ConnectionFailed);
}

#[test]
fn server_hellos_are_read() {
    let client = [0u8; 80];
    let good = server_hello(&[0; 32], 0x1303);
    let p = parse_server_hello(&good, &client).unwrap();
    assert!(p.suite.chacha && p.suite.key_len == 32);
    assert_eq!(p.key_share, public_of(&EPHEMERAL));
    let err = |raw: &[u8]| parse_server_hello(raw, &client).err().unwrap().message;
    assert_eq!(err(&[2, 0, 0]), "short ServerHello");
    assert!(err(&good[..20]).contains("the version and random"));
    assert!(err(&server_hello(&[0; 32], 0x1305)).contains("1305"));
    let mut comp = good.clone();
    comp[4 + 34 + 33 + 2] = 1;
    assert!(err(&comp).contains("compression method"));
    let mut version = good.clone();
    version[4 + 34 + 33 + 3 + 2 + 5] = 3;
    assert_eq!(err(&version), "The server did not select TLS 1.3.");
    let mut group = good.clone();
    group[4 + 34 + 33 + 3 + 2 + 6 + 5] = 0x17;
    assert_eq!(err(&group), "The server's key_share is missing or is not X25519.");
}

#[test]
fn certificates_are_read() {
    let sig = bound_signature(&[1; 32], &[3; 32]);
    let c = certificate(&[3; 32], &sig, &[0x2b, 0x65, 0x70]);
    assert_eq!(read_ed25519_cert(&c), Some((vec![3; 32], sig.clone())));
    assert_eq!(read_ed25519_cert(&c[..60]), None);
    assert!(assert_reality(&c, &[1; 32], "s").is_ok());
    assert!(verify_certificate(&[1; 32], &[3; 32], &sig));
    assert!(!verify_certificate(&[2; 32], &[3; 32], &sig));
    assert!(!verify_certificate(&[1; 32], &[3; 32], &sig[1..]));
    assert_eq!(
        extract_leaf(&[0, 0, 0, 0]).unwrap_err().message,
        "The server sent an empty certificate list."
    );
    assert_eq!(extract_leaf(&[0, 0, 0, 5, 0, 0, 2, 8, 9]).unwrap(), [8, 9]);
    assert!(extract_leaf(&[0, 0, 0, 9, 0]).is_err());
}

#[test]
fn messages_come_in_any_pieces() {
    let all = [message(8, b"one"), message(11, &[7; 300])].concat();
    for size in [1usize, 5, 100, 400] {
        let mut records = TlsRecordStream::new();
        let mut out = TlsRecordStream::new();
        let mut reader = HandshakeReader::new();
        let mut got = Vec::new();
        for piece in all.chunks(size) {
            records.push_inbound(&out.stage(ContentType::Handshake, piece));
            loop {
                match reader.next(&mut records) {
                    HsNext::Message(m) => got.push((m.ty, m.body)),
                    HsNext::More => break,
                    HsNext::Fail(e) => panic!("{}", e.message),
                }
            }
        }
        assert_eq!(got, [(8, b"one".to_vec()), (11, vec![7; 300])]);
        assert!(!reader.has_buffered());
    }
}

#[test]
fn records_read_back() {
    let suite = CipherSuite::from_id(0x1301).unwrap();
    let mut w = RecordProtection::new(suite, &[4; 32]);
    let mut r = RecordProtection::new(suite, &[4; 32]);
    let header = [0x17, 3, 3, 0, 22];
    let a = w.protect(b"plain", &header);
    let b = w.protect(b"plain", &header);
    assert_eq!(a.len(), 21);
    assert_ne!(a, b);
    assert_eq!(r.unprotect(&a, &header).unwrap(), b"plain");
    assert_eq!(r.unprotect(&b, &header).unwrap(), b"plain");
    assert!(r.unprotect(&b, &header).is_err());
    let mut s = TlsRecordStream::new();
    assert!(s.write_record(ContentType::ApplicationData, &vec![0; 16385]).is_err());
    assert_eq!(
        s.write_record(ContentType::Handshake, b"x").unwrap(),
        [0x16, 3, 1, 0, 1, b'x']
    );
    s.push_inbound(&[0x17, 3, 3]);
    assert!(s.try_read_buffered().unwrap().is_none());
    assert_eq!(s.steal_inbound_leftover(), [0x17, 3, 3]);
    s.push_inbound(&[0x30, 3, 3, 0, 0]);
    assert!(s.try_read_buffered().is_err());
    let mut long = TlsRecordStream::new();
    long.push_inbound(&[0x17, 3, 3, 0xff, 0xff]);
    assert!(long.try_read_buffered().is_err());
    for (v, ty) in [
        (20, ContentType::ChangeCipherSpec),
        (21, ContentType::Alert),
        (22, ContentType::Handshake),
        (23, ContentType::ApplicationData),
    ] {
        assert_eq!(ContentType::from_u8(v), Some(ty));
        assert_eq!(ty.to_u8(), v);
    }
    assert_eq!(ContentType::from_u8(24), None);
}

#[test]
fn the_key_schedule() {
    // The early secret of RFC 8448, and the secret that is derived from it.
    let early = extract(HashKind::Sha256, &[0], &[0; 32]);
    assert_eq!(
        hex::encode(&early),
        "33ad0a1c607ec03b09e6cd9893680ce210adf300aa1f2660e1b22e10f170f92a"
    );
    let mut derived = [0u8; 32];
    derive_secret(HashKind::Sha256, &early, b"derived", &HashKind::Sha256.empty(), &mut derived);
    assert_eq!(
        hex::encode(derived),
        "6f2615a108c702c5678f54fc9dbab69716c076189c48250cebeac3576c3611ba"
    );
    // The keys of the server's handshake in the same document.
    let secret =
        hex::decode("b67b7d690cc16c4e75e54213cb2d37b4e9c912bcded9105d42befd59d391ad38").unwrap();
    let mut key = [0u8; 16];
    let mut iv = [0u8; 12];
    traffic_keys(HashKind::Sha256, &secret, &mut key, &mut iv);
    assert_eq!(hex::encode(key), "3fce516009c21727d0f2e4e86ee403bc");
    assert_eq!(hex::encode(iv), "5d313eb2671276ee13000b30");
    let mut other = [0u8; 16];
    expand_label(HashKind::Sha256, &secret, b"key", b"", &mut other);
    assert_eq!(other, key);
    let mut n0 = [0u8; 12];
    let mut n1 = [0u8; 12];
    build_nonce(&mut n0, &iv, 0);
    build_nonce(&mut n1, &iv, 0x0102);
    assert_eq!(n0, iv);
    assert_eq!((n1[10], n1[11]), (iv[10] ^ 1, iv[11] ^ 2));
    let fin = build_finished(HashKind::Sha384, &[1; 48], &[2; 48]);
    assert_eq!(&fin[..4], &[20, 0, 0, 48]);
    let mut data = [0u8; 48];
    finished_verify(HashKind::Sha384, &[1; 48], &[2; 48], &mut data);
    assert_eq!(&fin[4..], data);
    assert!(verify_finished(HashKind::Sha384, &[1; 48], &[2; 48], &fin[4..]).is_ok());
    assert!(verify_finished(HashKind::Sha384, &[1; 48], &[3; 48], &fin[4..]).is_err());
    assert_eq!(
        hex::encode(HashKind::Sha384.digest(b"abc")),
        "cb00753f45a35e8bb5a03d699ac65007272c32ab0eded1631a8b605a43ff5bed8086072ba1e7cc2358baeca134c825a7"
    );
}

#[test]
fn hellos_have_their_layout() {
    let private = [6u8; 32];
    let h = build_with("s.example", &["h2".to_string()], &[8; 32], private, public_of(&private));
    let b = &h.handshake;
    assert_eq!(b[0], 1);
    assert_eq!(u32::from_be_bytes([0, b[1], b[2], b[3]]) as usize + 4, b.len());
    assert_eq!(&b[4..6], &[3, 3]);
    assert_eq!(&b[6..38], &[8; 32]);
    assert_eq!(b[38], 32);
    assert_eq!(&b[39..71], &[0; 32]);
    assert_eq!(&b[71..79], &[0, 6, 0x13, 1, 0x13, 2, 0x13, 3]);
    assert!(b.windows(9).any(|w| w == b"s.example"));
    assert!(b.windows(32).any(|w| w == public_of(&private)));
    // The session id opens under the key, with the id blanked.
    let mut sealed = b.clone();
    seal_session_id(&mut sealed, &[1; 32], &[2; 8], 0x01020304, [26, 3, 27]).unwrap();
    assert_eq!(&sealed[..39], &b[..39]);
    let plain = rust_clash::proxynet::aead::open(
        rust_clash::proxynet::aead::AeadKind::Aes256Gcm,
        &[1; 32],
        &b[26..38],
        b,
        &sealed[39..71],
    )
    .unwrap();
    assert_eq!(plain, [26, 3, 27, 0, 1, 2, 3, 4, 2, 2, 2, 2, 2, 2, 2, 2]);
    assert!(seal_session_id(&mut [0; 70], &[1; 32], &[2; 8], 0, [0; 3]).is_err());
    let e = seal_session_id(&mut [0; 71], &[1; 32], &[2; 8], 0, [0; 3]).unwrap_err();
    assert_eq!(e.message, "REALITY requires a 32-byte session id; this ClientHello declares 0.");
}

#[test]
fn options_of_reality() {
    assert_eq!(parse_short_id(None).unwrap(), [0; 8]);
    assert_eq!(parse_short_id(Some("Ab01")).unwrap(), [0xab, 1, 0, 0, 0, 0, 0, 0]);
    let err = |s: &str| parse_short_id(Some(s)).unwrap_err().message;
    assert_eq!(err("abc"), "A REALITY short id is an even number of hex digits; 'abc' is not.");
    assert_eq!(
        err("0123456789abcdef01"),
        "A REALITY short id is at most 8 bytes; '0123456789abcdef01' is 9."
    );
    assert_eq!(err("zz"), "'zz' is not hex");
    assert_eq!(decode_pbk(&"A".repeat(43)).unwrap(), [0; 32]);
    assert_eq!(
        decode_pbk("AAAA").unwrap_err().message,
        "REALITY public key decodes to 3 bytes; need 32."
    );
    assert_eq!(
        decode_pbk("A!").unwrap_err().message,
        "REALITY public key 'A!' is not valid base64url."
    );
    assert!(handshake("s", "AAAA", None, &[], 0).is_err());
}

#[test]
fn vectors_are_framed() {
    let mut w = TlsWriter::new(16);
    w.write_u8(9);
    let a = w.begin_vector24();
    let b = w.begin_vector16();
    let c = w.begin_vector8();
    w.write_bytes(b"xy");
    w.end_vector(c, 1);
    w.write_u16(0x0102);
    w.end_vector(b, 2);
    w.write_zeros(1);
    w.end_vector(a, 3);
    assert_eq!(w.into_vec(), [9, 0, 0, 8, 0, 5, 2, b'x', b'y', 1, 2, 0]);
}
