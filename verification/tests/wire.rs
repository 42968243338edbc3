use aes::cipher::{BlockDecrypt, KeyInit};
use rust_clash::codec::{
    hex_value, push_be16, push_be32, push_be64, push_le32, read_be16, read_be24, read_be32,
    read_le32, to_hex_char, to_upper_hex,
};
use rust_clash::ip::{format_ipv4, parse_ip, parse_ipv4, parse_ipv6, Ip};
use rust_clash::proxynet::address::{encode_address, ProxyAddress};
use rust_clash::proxynet::aead::{open, seal, AeadKind, NonceSeq};
use rust_clash::proxynet::crypto::{uuid_of, uuid_write_be};
use rust_clash::proxynet::dial::{
    alpn_key, bad_sni, dial, dial_timed_out, dial_trojan, dial_vless, establish_vless, Security,
};
use rust_clash::proxynet::error::{ProxyError, ProxyErrorCode};
use rust_clash::proxynet::http_connect::{connect_request, judge_answer, read_answer, ConnectStep};
use rust_clash::proxynet::obfs::{
    apply_plugin, build_tls_client_hello, http_request_with, parse_opts, HttpObfsStream, ObfsRead,
    Plugin, TlsObfsStream, TlsWrote,
};
use rust_clash::proxynet::options::{
    EdgeOptions, HttpProxyOptions, OutboundKind, SocksOptions, SsOptions, TrojanOptions, VlessOptions, VlessSecurity,
    VmessOptions,
};
use rust_clash::proxynet::outgoing::PrefixedStream;
use rust_clash::proxynet::socks::{SocksAction, SocksDial};
use rust_clash::proxynet::ss::{dial_ss, evp_bytes_to_key, ShadowedStream, SsRead};
use rust_clash::proxynet::transport::{
    encode_client_binary_frame, encode_masked_frame, expected_accept, normalize_path,
    parse_ws_frame, read_upgrade, resolve_host_header, resolve_transport, upgrade_request,
    websocket_key, TransportKind, UpgradeStep, WebSocketStream, WsEvent, WsRead,
};
use rust_clash::proxynet::trojan;
use rust_clash::proxynet::vision::{VisionRead, VisionStream, CMD_END};
use rust_clash::proxynet::vless::{self, VlessRead, VlessResponseStream};
use rust_clash::proxynet::vmess::crypto::{BodyAead, ShakeSizeParser, VmessNonce};
use rust_clash::proxynet::vmess::kdf::{vmess_kdf_1_one_shot, vmess_kdf_3_one_shot};
use rust_clash::proxynet::vmess::protocol::{
    cmd_key_from_uuid, decode_aead_header, encode_request, encode_request_with, fnv1a32,
    parse_socks_host, ClientSession, Draw, TargetHost, SECURITY_AES128_GCM,
};
use rust_clash::proxynet::vmess::stream::{
    choose_security, dial_vmess, ReadState, VmessAuthStream, VmessRead,
};

const ID: &str = "11111111-1111-1111-1111-111111111111";

fn hex(b: &[u8]) -> String {
    hex::encode(b)
}

#[test]
fn numbers_read_back() {
    for n in [0u32, 1, 255, 256, 65535, 65536, 0x01020304, u32::MAX] {
        let mut b = Vec::new();
        push_be32(&mut b, n);
        assert_eq!(b, n.to_be_bytes());
        assert_eq!(read_be32(b[0], b[1], b[2], b[3]), n);
        let mut l = Vec::new();
        push_le32(&mut l, n);
        assert_eq!(l, n.to_le_bytes());
        assert_eq!(read_le32(l[0], l[1], l[2], l[3]), n);
        let mut s = Vec::new();
        push_be16(&mut s, n as u16);
        assert_eq!(read_be16(s[0], s[1]), n as u16);
    }
    let mut b = Vec::new();
    push_be64(&mut b, 0x0102030405060708);
    assert_eq!(b, [1, 2, 3, 4, 5, 6, 7, 8]);
    assert_eq!(read_be24(1, 2, 3), 0x010203);
    for n in 0..16u8 {
        assert_eq!(hex_value(to_hex_char(n)), Some(n));
        assert_eq!(hex_value(to_upper_hex(n)), Some(n));
    }
    assert_eq!(hex_value('g'), None);
}

#[test]
fn addresses_are_parsed() {
    let c = |s: &str| s.chars().collect::<Vec<char>>();
    assert_eq!(parse_ipv4(&c("1.2.3.4")), Some([1, 2, 3, 4]));
    for bad in ["1.2.3", "1.2.3.256", "01.2.3.4", "1.2.3.4.5", "", "a.b.c.d", " 1.2.3.4"] {
        assert_eq!(parse_ipv4(&c(bad)), None, "{bad}");
    }
    let groups = |s: &str| parse_ipv6(&c(s)).map(|b| hex(&b));
    for (good, want) in [
        ("::", "00000000000000000000000000000000"),
        ("::1", "00000000000000000000000000000001"),
        ("1::", "00010000000000000000000000000000"),
        ("2001:db8::8:800:200c:417a", "20010db80000000000080800200c417a"),
        ("::ffff:1.2.3.4", "00000000000000000000ffff01020304"),
        ("1:2:3:4:5:6:7:8", "00010002000300040005000600070008"),
    ] {
        assert_eq!(groups(good).as_deref(), Some(want), "{good}");
    }
    for bad in [":", ":::", "1:2:3:4:5:6:7", "1::2::3", "12345::", "1:2:3:4:5:6:7:8:9", "::1.2.3"] {
        assert_eq!(parse_ipv6(&c(bad)), None, "{bad}");
    }
    assert_eq!(parse_ip(&c("::1")), Some(Ip::V6([0, 0, 0, 0, 0, 0, 0, 0, 0, 0, 0, 0, 0, 0, 0, 1])));
    assert_eq!(format_ipv4([10, 0, 255, 7]).iter().collect::<String>(), "10.0.255.7");
    assert_eq!(encode_address("1.2.3.4", 1, 3, 4), Some(vec![1, 1, 2, 3, 4]));
    assert_eq!(encode_address("ab", 1, 3, 4), Some(vec![3, 2, b'a', b'b']));
    assert_eq!(encode_address(&"a".repeat(256), 1, 3, 4), None);
    let mut dest = [0u8; 300];
    assert_eq!(ProxyAddress::write_socks_port_last("ab", 0x1234, &mut dest).unwrap(), 6);
    assert_eq!(&dest[..6], &[3, 2, b'a', b'b', 0x12, 0x34]);
    assert_eq!(ProxyAddress::write_socks_port_first("ab", 0x1234, &mut dest).unwrap(), 6);
    assert_eq!(&dest[..2], &[0x12, 0x34]);
    assert_eq!(ProxyAddress::write_type_and_address("1.2.3.4", &mut dest, 1, 2, 3).unwrap(), 5);
    assert_eq!(&dest[..5], &[1, 1, 2, 3, 4]);
    let e = ProxyAddress::write_socks_port_last(&"a".repeat(256), 1, &mut dest).unwrap_err();
    assert_eq!(e.code, ProxyErrorCode::StringTooLong);
}

#[test]
fn sealed_data_is_opened() {
    for (kind, n) in [(AeadKind::Aes128Gcm, 16), (AeadKind::Aes256Gcm, 32), (AeadKind::ChaCha20Poly1305, 32)] {
        let key = vec![7u8; n];
        let mut c = seal(kind, &key, &[1; 12], b"aad", b"plain text");
        assert_eq!(c.len(), 26);
        assert_ne!(&c[..10], b"plain text");
        assert_eq!(open(kind, &key, &[1; 12], b"aad", &c).as_deref(), Some(&b"plain text"[..]));
        assert_eq!(open(kind, &key, &[2; 12], b"aad", &c), None);
        assert_eq!(open(kind, &key, &[1; 12], b"axd", &c), None);
        c[3] ^= 1;
        assert_eq!(open(kind, &key, &[1; 12], b"aad", &c), None);
    }
    // The first test case of the specification of GCM with a key of zeros.
    assert_eq!(
        hex(&seal(AeadKind::Aes128Gcm, &[0; 16], &[0; 12], b"", b"")),
        "58e2fccefa7e3061367f1d57a4e7455a"
    );
    let mut s = NonceSeq::new();
    assert_eq!(s.next(), [0; 12]);
    let second = s.next();
    assert_eq!(second[0], 1);
    for _ in 0..254 {
        s.next();
    }
    assert_eq!(&s.next()[..2], &[0, 1]);
}

#[test]
fn user_ids() {
    let mut d = [0u8; 16];
    assert!(uuid_write_be("01234567-89ab-CDEF-0123-456789abcdef", &mut d));
    assert_eq!(hex(&d), "0123456789abcdef0123456789abcdef");
    // Another text is digested, with the version and the variant set.
    let u = uuid_of("hello").unwrap();
    assert_eq!(u.len(), 16);
    assert_eq!(u[6] >> 4, 5);
    assert_eq!(u[8] >> 6, 2);
    assert_ne!(uuid_of("hello"), uuid_of("hullo"));
}

#[test]
fn errors_say_what_happened() {
    let e = ProxyError::new(ProxyErrorCode::Timeout, "late");
    assert_eq!((e.code, e.message.as_str()), (ProxyErrorCode::Timeout, "late"));
    assert_eq!(ProxyError::from_io("broken").code, ProxyErrorCode::ConnectionFailed);
    assert_eq!(dial_timed_out().code, ProxyErrorCode::Timeout);
    assert_eq!(bad_sni("x y").message, "bad SNI x y");
    assert_eq!(alpn_key(&["h2".to_string(), "a".to_string()]), b"h2\0a\0");
}

fn vless_options() -> VlessOptions {
    VlessOptions {
        id: ID.into(),
        host: "9.9.9.9".into(),
        port: 443,
        security: VlessSecurity::Plain,
        transport: "tcp".into(),
        path: None,
        host_header: None,
        sni: None,
        alpn: vec![],
        flow: None,
        fingerprint: None,
        reality_public_key: None,
        reality_short_id: None,
        allow_insecure: false,
    }
}

#[test]
fn layers_of_a_connection() {
    let mut o = vless_options();
    assert!(matches!(dial_vless(&o).unwrap().security, Security::Plain));
    o.transport = "grpc".into();
    let e = dial_vless(&o).unwrap_err();
    assert_eq!(e.code, ProxyErrorCode::TransportUpgradeFailed);
    assert_eq!(e.message, "VLESS transport 'grpc' is not supported");
    o.transport = "ws".into();
    o.path = Some("p".into());
    o.security = VlessSecurity::Reality;
    assert_eq!(dial_vless(&o).unwrap_err().message, "VLESS REALITY needs pbk");
    o.reality_public_key = Some("k".into());
    o.flow = Some("bad".into());
    assert_eq!(dial_vless(&o).unwrap_err().message, "VLESS flow 'bad' is not supported");
    o.flow = Some("XTLS-RPRX-VISION".into());
    let l = dial_vless(&o).unwrap();
    assert_eq!(l.transport, TransportKind::WebSocket);
    assert_eq!((l.path.as_str(), l.host.as_str()), ("/p", "9.9.9.9"));
    match l.security {
        Security::Reality { alpn, name, .. } => {
            assert_eq!(alpn, ["h2", "http/1.1"]);
            assert_eq!(name, "9.9.9.9");
        }
        other => panic!("{other:?}"),
    }
    let t = TrojanOptions {
        password: "p".into(),
        host: "9.9.9.9".into(),
        port: 443,
        transport: "kcp".into(),
        path: None,
        host_header: None,
        sni: Some("s.example".into()),
        alpn: vec![],
        allow_insecure: true,
    };
    assert_eq!(dial_trojan(&t).unwrap_err().message, "Trojan transport 'kcp' is not supported");
    let t = TrojanOptions { transport: "".into(), ..t };
    let edge = EdgeOptions {
        host: "9.9.9.9".into(),
        host_header: None,
        sni: None,
        allow_insecure: false,
        tls: false,
    };
    match dial("TROJAN", Some(&OutboundKind::Trojan(t)), &edge).unwrap().security {
        Security::Tls { name, insecure, .. } => assert!(name == "s.example" && insecure),
        other => panic!("{other:?}"),
    }
    assert_eq!(dial("vless", None, &edge).unwrap_err().message, "VLESS node missing uuid");
    assert_eq!(dial("trojan", None, &edge).unwrap_err().message, "Trojan node missing password");
    assert_eq!(dial("ss", None, &edge).unwrap_err().message, "Shadowsocks node missing password");
    assert_eq!(dial("vmess", None, &edge).unwrap_err().message, "VMess node missing uuid");
    assert_eq!(dial("Snell", None, &edge).unwrap_err().message, "Outbound type snell");
}

#[test]
fn vless_requests_and_answers() {
    let plain = vless::open_request(ID, "ab", 443, false).unwrap();
    let mut want = vec![0u8];
    want.extend([0x11; 16]);
    want.extend([0, 1, 1, 187, 2, 2, b'a', b'b']);
    assert_eq!(plain, want);
    let padded = vless::open_request(ID, "1.2.3.4", 80, true).unwrap();
    assert_eq!(padded[17], 18);
    assert_eq!(&padded[18..36], b"\x0a\x10xtls-rprx-vision");
    assert_eq!(&padded[36..], &[1, 0, 80, 1, 1, 2, 3, 4]);
    // What is left in a buffer by a request that cannot be built.
    let long = "a".repeat(256);
    let mut buffer = [7u8; 320];
    assert!(vless::build_request(&mut buffer, ID, &long, 443, false).is_err());
    assert_eq!(buffer[..22], [&[0u8][..], &[0x11; 16], &[0, 1, 1, 187, 2]].concat());
    assert_eq!(buffer[22..], [7; 298]);
    assert!(trojan::build_request(&mut buffer, "p", &long, 443).is_err());
    assert_eq!(buffer[56..60], [13, 10, 1, 3]);
    let mut a = VlessResponseStream::new("h.example", 443);
    assert!(matches!(a.read(10), VlessRead::More));
    a.feed(&[0]);
    assert!(matches!(a.read(10), VlessRead::More));
    a.feed(&[2, 9]);
    a.feed(&[9, b'x', b'y']);
    assert!(matches!(a.read(1), VlessRead::Data(d) if d == b"x"));
    assert!(matches!(a.read(9), VlessRead::Data(d) if d == b"y"));
    assert!(matches!(a.read(9), VlessRead::Through));
    let mut bad = VlessResponseStream::new("h.example", 443);
    bad.feed(&[0x1f, 0]);
    assert!(matches!(bad.read(9), VlessRead::Fail(m) if m == "Unexpected VLESS response version. Expected 0x00, got 0x1F."));
    assert!(bad.handshake_eof().contains("for h.example:443"));
    assert!(vless::is_vision(Some("Xtls-Rprx-Vision")));
    assert!(!vless::is_vision(None));
    let mut o = vless_options();
    o.flow = Some("xtls-rprx-vision".into());
    assert!(establish_vless(&o, "ab", 1).unwrap().vision.is_some());
}

#[test]
fn trojan_requests() {
    let r = trojan::open_request("password", "1.2.3.4", 80).unwrap();
    assert_eq!(&r[..56], b"d63dc919e201d7bc4c825630d2cf25fdc93d4b2f0d46706d29038d01");
    assert_eq!(&r[56..], b"\r\n\x01\x01\x01\x02\x03\x04\x00\x50\r\n");
    assert_eq!(
        trojan::open_request("p", &"a".repeat(256), 80).unwrap_err().message,
        "Target host name exceeds the maximum of 255 bytes."
    );
}

#[test]
fn vision_frames_read_back() {
    let uuid = [5u8; 16];
    let mut s = VisionStream::new(uuid);
    let mut wire = Vec::new();
    let mut sent = Vec::new();
    for chunk in [&b"first"[..], b"second", b"\x17app"] {
        assert!(!s.begin_write(chunk));
        wire.extend_from_slice(s.out.rest());
        let n = s.out.rest().len();
        assert!(n <= 8192);
        s.out.wrote(n);
        assert_eq!(s.finish_uplink_frame(), chunk.len());
        sent.extend_from_slice(chunk);
    }
    assert!(s.uplink_raw);
    assert!(s.begin_write(b"raw"));
    wire.extend_from_slice(b"raw");
    sent.extend_from_slice(b"raw");
    assert_eq!(&wire[..16], &uuid);
    // The other side takes the frames in pieces.
    let mut r = VisionStream::new(uuid);
    let mut got = Vec::new();
    for piece in wire.chunks(7) {
        r.feed(piece);
        loop {
            match r.read(3) {
                VisionRead::Data(d) => got.extend(d),
                VisionRead::More | VisionRead::Through => break,
                other => panic!("{other:?}"),
            }
        }
    }
    assert_eq!(got, sent);
    assert_eq!(CMD_END, 1);
    let mut short = VisionStream::new(uuid);
    short.feed(&uuid);
    short.feed(&[0, 0, 4]);
    assert!(matches!(short.read(9), VisionRead::More));
    short.feed(&[0, 0]);
    assert!(matches!(short.read(9), VisionRead::More));
    assert!(matches!(short.closed(), VisionRead::Fail(_)));
    let mut early = VisionStream::new(uuid);
    early.feed(&uuid);
    assert!(matches!(early.closed(), VisionRead::Through));
    let mut plain = VisionStream::new(uuid);
    plain.feed(b"not a frame, and longer than an id");
    assert!(matches!(plain.read(3), VisionRead::Data(d) if d == b"not"));
}

#[test]
fn web_socket_frames_read_back() {
    for n in [0usize, 1, 125, 126, 65535, 65536] {
        let p: Vec<u8> = (0..n).map(|i| i as u8).collect();
        let mut f = encode_masked_frame(&p, [1, 2, 3, 4]);
        let len = f.len();
        f.extend_from_slice(b"rest");
        let (used, ev) = parse_ws_frame(&f).unwrap().unwrap();
        assert_eq!(used, len);
        assert!(matches!(ev, WsEvent::Payload(q) if q == p));
    }
    assert_eq!(encode_masked_frame(b"ab", [1, 2, 3, 4]), [0x82, 0x82, 1, 2, 3, 4, b'a' ^ 1, b'b' ^ 2]);
    assert_eq!(encode_client_binary_frame(b"abc").len(), 9);
    assert!(matches!(parse_ws_frame(&[0x88, 0]).unwrap(), Some((2, WsEvent::Close))));
    assert!(matches!(parse_ws_frame(&[0x89, 0]).unwrap(), Some((2, WsEvent::Skip))));
    let mut ws = WebSocketStream::new(vec![0x82, 3, b'x']);
    assert!(matches!(ws.read(9), WsRead::More));
    ws.feed(&[b'y', b'z', 0x88, 0]);
    assert!(matches!(ws.read(2), WsRead::Data(d) if d == b"xy"));
    assert!(matches!(ws.read(9), WsRead::Data(d) if d == b"z"));
    assert!(matches!(ws.read(9), WsRead::End));
    ws.begin_write(b"up");
    assert!(matches!(parse_ws_frame(ws.out.rest()).unwrap(), Some((8, WsEvent::Payload(p))) if p == b"up"));
}

#[test]
fn upgrades_are_judged() {
    // The example of RFC 6455.
    assert_eq!(expected_accept("dGhlIHNhbXBsZSBub25jZQ=="), "s3pPLMBiTxaQ9kYGzzhZRbK+xOo=");
    assert_eq!(websocket_key().len(), 24);
    let r = upgrade_request("/p", "h.example", Some("k"));
    assert_eq!(r, "GET /p HTTP/1.1\r\nHost: h.example\r\nUpgrade: websocket\r\nConnection: Upgrade\r\nSec-WebSocket-Key: k\r\nSec-WebSocket-Version: 13\r\n\r\n");
    let ok = b"HTTP/1.1 101 Switching\r\nSEC-WebSocket-Accept:  abc \r\n\r\nmore";
    assert!(matches!(read_upgrade(ok, Some("abc")), UpgradeStep::Done(l) if l == b"more"));
    assert!(matches!(read_upgrade(&ok[..30], Some("abc")), UpgradeStep::More));
    let fail = |b: &[u8], e: Option<&str>| match read_upgrade(b, e) {
        UpgradeStep::Fail(e) => e.message,
        other => panic!("{other:?}"),
    };
    assert!(fail(b"HTTP/1.1 404 No\r\n\r\n", None).contains("status 404"));
    assert!(fail(b"nonsense\r\n\r\n", None).contains("malformed"));
    assert!(fail(b"HTTP/1.1 101 x\r\n\r\n", Some("abc")).contains("no Sec-WebSocket-Accept"));
    assert!(matches!(read_upgrade(ok, Some("other")), UpgradeStep::Fail(_)));
    assert_eq!(normalize_path(None), "/");
    assert_eq!(normalize_path(Some("p")), "/p");
    assert_eq!(resolve_host_header(Some(""), Some("s"), "h"), "s");
    assert_eq!(resolve_host_header(None, None, "h"), "h");
    assert_eq!(resolve_transport("HTTPUpgrade"), TransportKind::HttpUpgrade);
    assert_eq!(resolve_transport("quic"), TransportKind::Unsupported);
}

#[test]
fn http_proxies_are_asked() {
    let o = HttpProxyOptions { username: Some("user".into()), password: Some("pass".into()) };
    assert_eq!(
        connect_request(&o, "::1", 443),
        "CONNECT [::1]:443 HTTP/1.1\r\nHost: [::1]:443\r\nProxy-Authorization: Basic dXNlcjpwYXNz\r\nProxy-Connection: Keep-Alive\r\n\r\n"
    );
    assert!(matches!(judge_answer("HTTP/1.1 407 Auth\r\n"), ConnectStep::Fail(e) if e.message == "HTTP CONNECT failed: HTTP/1.1 407 Auth"));
    assert!(matches!(read_answer(b"HTTP/1.1 200"), ConnectStep::More));
    assert!(matches!(read_answer(&vec![b'a'; 8193]), ConnectStep::Fail(e) if e.message == "HTTP CONNECT response too large"));
}

#[test]
fn socks_servers_that_refuse() {
    let o = SocksOptions { username: Some("u".into()), password: None };
    let dial = || SocksDial::new(&o, "h.example", 80);
    assert_eq!(dial().greet(), [5, 2, 0, 2]);
    assert!(matches!(dial().answered(&[4, 0]), SocksAction::Fail(_)));
    assert!(matches!(dial().answered(&[5, 0xff]), SocksAction::Fail(_)));
    let mut d = dial();
    assert!(matches!(d.answered(&[5, 2]), SocksAction::Send(b) if b == [1, 1, b'u', 0]));
    assert!(matches!(d.answered(&[1, 1]), SocksAction::Fail(e) if e.code == ProxyErrorCode::AuthFailed));
    let mut d = dial();
    d.answered(&[5, 0]);
    assert!(matches!(d.answered(&[5, 1, 0, 1]), SocksAction::Fail(_)));
    let mut d = dial();
    d.answered(&[5, 0]);
    assert!(matches!(d.answered(&[5, 0, 0, 3]), SocksAction::Read));
    assert_eq!(d.wanted(), 1);
    assert!(matches!(d.answered(&[2]), SocksAction::Read));
    assert_eq!(d.wanted(), 4);
    assert!(matches!(d.answered(&[0; 4]), SocksAction::Done));
    let mut d = dial();
    d.answered(&[5, 0]);
    assert!(matches!(d.answered(&[5, 0, 0, 9]), SocksAction::Fail(e) if e.message == "SOCKS5 bind atyp 9"));
}

fn ss_options() -> SsOptions {
    SsOptions {
        method: "aes-128-gcm".into(),
        password: "secret".into(),
        host: "srv.example".into(),
        port: 8388,
        plugin: None,
        plugin_opts: None,
        transport: "tcp".into(),
        path: None,
        host_header: None,
        sni: None,
        alpn: vec![],
        allow_insecure: false,
        tls: false,
    }
}

#[test]
fn shadowsocks_faults() {
    // MD5 of the password, and of that digest with the password.
    assert_eq!(hex(&evp_bytes_to_key(b"password", 16)), "5f4dcc3b5aa765d61d8327deb882cf99");
    assert_eq!(&evp_bytes_to_key(b"password", 32)[..16], &evp_bytes_to_key(b"password", 16)[..]);
    assert!(ShadowedStream::new("rc4-md5", "x").is_err());
    let mut o = ss_options();
    o.method = "none".into();
    assert_eq!(dial_ss(&o, "h", 1).unwrap_err().code, ProxyErrorCode::AuthRequired);
    let mut a = ShadowedStream::new("aes-128-gcm", "secret").unwrap();
    let mut b = ShadowedStream::new("aes-128-gcm", "other").unwrap();
    a.begin_write(b"data");
    let wire = a.out.rest().to_vec();
    assert_eq!(wire.len(), 16 + 18 + 4 + 16);
    assert!(matches!(b.read(9), SsRead::More(16)));
    assert!(matches!(b.closed(), SsRead::Fail(m) if m == "ss eof"));
    b.feed(&wire[..16]).unwrap();
    assert!(matches!(b.read(9), SsRead::More(18)));
    assert!(matches!(b.closed(), SsRead::End));
    assert_eq!(b.feed(&wire[16..34]).unwrap_err(), "ss decrypt");
}

#[test]
fn plugins_of_shadowsocks() {
    let o = ss_options();
    assert!(matches!(apply_plugin(" none ", None, &o).unwrap(), Plugin::Plain));
    assert!(matches!(apply_plugin("obfs", None, &o).unwrap(), Plugin::Http { path, host } if path == "/" && host == "srv.example"));
    assert!(matches!(apply_plugin("obfs-local", Some("obfs=tls;obfs-host=h"), &o).unwrap(), Plugin::Tls { host } if host == "h"));
    assert_eq!(apply_plugin("obfs", Some("mode=kcp"), &o).unwrap_err().message, "unsupported simple-obfs mode kcp");
    assert_eq!(apply_plugin("v2ray-plugin", None, &o).unwrap_err().message, "unsupported shadowsocks plugin v2ray-plugin");
    assert_eq!(parse_opts("a=1;b=2").string("b").as_deref(), Some("2"));
    let r = http_request_with("/p", "h", b"body", &[0; 16], 7, 8);
    let text = String::from_utf8(r).unwrap();
    assert!(text.starts_with("GET /p HTTP/1.1\r\nHost: h\r\n"), "{text}");
    assert!(text.contains("Content-Length: 4\r\n"));
    assert!(text.ends_with("\r\n\r\nbody"));
    let mut s = HttpObfsStream::new("/".into(), "h".into());
    s.feed(&vec![b'a'; 4097]);
    assert!(matches!(s.read(9), ObfsRead::Fail(m) if m == "obfs http response too large"));
}

#[test]
fn data_that_looks_like_tls() {
    let hello = build_tls_client_hello(b"h.example", b"payload", 0x01020304, [1; 32], [9; 32]);
    assert_eq!(&hello[11..15], &[1, 2, 3, 4]);
    assert_eq!(&hello[15..43], &[1; 28]);
    assert_eq!(&hello[44..76], &[9; 32]);
    assert_eq!(&hello[..3], &[0x16, 3, 1]);
    assert_eq!(read_be16(hello[3], hello[4]) as usize + 5, hello.len());
    assert!(hello.windows(7).any(|w| w == b"payload"));
    assert!(hello.windows(9).any(|w| w == b"h.example"));
    let mut s = TlsObfsStream::new("h.example".into());
    let mut wire = Vec::new();
    let mut write = |s: &mut TlsObfsStream, data: &[u8]| -> (usize, Vec<u8>) {
        let mut out = Vec::new();
        loop {
            s.advance(data, 0x01020304, [1; 32], [9; 32]);
            let p = s.pending(data);
            let n = p.len().min(4);
            out.extend_from_slice(&p[..n]);
            match s.wrote(data, n) {
                TlsWrote::More => {}
                TlsWrote::Data(n) => return (n, out),
                TlsWrote::Fail(e) => panic!("{e}"),
            }
        }
    };
    let (n, first) = write(&mut s, b"payload");
    assert_eq!(n, 7);
    assert_eq!(first, hello);
    let mut rest: &[u8] = b"more data";
    while !rest.is_empty() {
        let (n, out) = write(&mut s, rest);
        wire.extend(out);
        rest = &rest[n..];
    }
    assert_eq!(&wire[..5], &[0x17, 3, 3, 0, 9]);
    assert_eq!(&wire[5..], b"more data");
    // The answer: a hello that is passed over, then records.
    let mut r = TlsObfsStream::new("h.example".into());
    let mut down = vec![0u8; 105];
    down.extend_from_slice(&wire);
    let mut got = Vec::new();
    while !down.is_empty() {
        let n = r.room(100).min(down.len());
        let piece: Vec<u8> = down.drain(..n).collect();
        match r.feed(&piece) {
            ObfsRead::Data(d) => got.extend(d),
            ObfsRead::More => {}
            other => panic!("{other:?}"),
        }
    }
    assert_eq!(got, b"more data");
    let mut e = TlsObfsStream::new("h".into());
    assert!(matches!(e.feed(&[]), ObfsRead::Fail(m) if m == "obfs tls hello eof"));
}

#[test]
fn bytes_before_a_stream() {
    assert!(PrefixedStream::wrap_if_needed(vec![]).is_none());
    let mut p = PrefixedStream::wrap_if_needed(b"abc".to_vec()).unwrap();
    assert_eq!(p.read(2).as_deref(), Some(&b"ab"[..]));
    assert_eq!(p.read(2).as_deref(), Some(&b"c"[..]));
    assert_eq!(p.read(2), None);
    // Read to the end in pieces of any size: the bytes before it, then the stream.
    for size in 1..8 {
        let mut p = PrefixedStream::wrap_if_needed(b"before ".to_vec());
        let mut below: &[u8] = b"the stream";
        let mut got = Vec::new();
        loop {
            if let Some(b) = p.as_mut().and_then(|p| p.read(size)) {
                got.extend(b);
                continue;
            }
            let n = below.len().min(size);
            if n == 0 {
                break;
            }
            got.extend_from_slice(&below[..n]);
            below = &below[n..];
        }
        assert_eq!(got, b"before the stream");
    }
}

fn vmess_options(alter_id: u16) -> VmessOptions {
    VmessOptions {
        id: ID.into(),
        security: "auto".into(),
        alter_id,
        host: "9.9.9.9".into(),
        port: 443,
        transport: "tcp".into(),
        path: None,
        host_header: None,
        sni: None,
        alpn: vec![],
        allow_insecure: false,
        tls: false,
    }
}

#[test]
fn vmess_parts() {
    assert_eq!(fnv1a32(b""), 0x811c9dc5);
    assert_eq!(fnv1a32(b"a"), 0xe40c292c);
    let key = cmd_key_from_uuid(ID).unwrap();
    assert_eq!(key.len(), 16);
    assert_ne!(cmd_key_from_uuid("22222222-2222-2222-2222-222222222222").unwrap(), key);
    assert_eq!(vmess_kdf_1_one_shot(b"k", "s").len(), 32);
    assert_ne!(vmess_kdf_1_one_shot(b"k", "s"), vmess_kdf_1_one_shot(b"k", "t"));
    assert_ne!(vmess_kdf_3_one_shot(b"k", "s", b"a", b"b"), vmess_kdf_3_one_shot(b"k", "s", b"b", b"a"));
    let mut w = ShakeSizeParser::new(&[3; 16]);
    let mut r = ShakeSizeParser::new(&[3; 16]);
    for n in [0u16, 1, 700, 65535] {
        assert_eq!(w.next_padding_len(), r.next_padding_len());
        let b = w.encode(n);
        assert_eq!(r.decode(&b), n);
    }
    // The first bytes that SHAKE128 gives for no input are 7f 9c 2b a4.
    let mut none = ShakeSizeParser::new(&[]);
    assert_eq!(none.next_padding_len(), 0x7f9c % 64);
    assert_eq!(none.encode(0), [0x2b, 0xa4]);
    let mut n = VmessNonce::new(&[9; 16], 12);
    assert_eq!(n.next(), [0, 0, 9, 9, 9, 9, 9, 9, 9, 9, 9, 9]);
    assert_eq!(n.next()[..2], [0, 1]);
    let body = BodyAead::new("chacha20-poly1305", &[1; 16]).unwrap();
    let mut chunk = b"data".to_vec();
    body.seal(&[2; 12], &mut chunk);
    assert_eq!(chunk.len(), 4 + body.tag_len());
    body.open(&[2; 12], &mut chunk).unwrap();
    assert_eq!(chunk, b"data");
    assert_eq!(body.open(&[2; 12], &mut chunk).unwrap_err().message, "vmess short chunk");
    let mut other = vec![0u8; 20];
    assert_eq!(body.open(&[2; 12], &mut other).unwrap_err().message, "vmess decrypt");
    assert_eq!(none.size_bytes(), 2);
    assert!(BodyAead::new("aes-128-gcm", &[0; 15]).is_err());
    assert!(BodyAead::new("rot13", &[0; 16]).is_err());
    assert_eq!(choose_security(&vmess_options(0)).unwrap().1, SECURITY_AES128_GCM);
    assert!(matches!(parse_socks_host(&[1, 1, 2, 3, 4]).unwrap().0, TargetHost::Address(Ip::V4([1, 2, 3, 4]))));
    assert!(parse_socks_host(&[9]).is_err());
}

#[test]
fn vmess_requests_read_back() {
    let sess = ClientSession::from_random(&(0..33).collect::<Vec<u8>>(), true);
    let draw = Draw { shift: 0, padding: vec![1, 2, 3], id: vec![4; 4], nonce: vec![5; 8] };
    let a = encode_request_with(ID, "h.example", 80, SECURITY_AES128_GCM, &sess, 1000, &draw).unwrap();
    let b = encode_request_with(ID, "h.example", 80, SECURITY_AES128_GCM, &sess, 1000, &draw).unwrap();
    assert_eq!(a, b);
    let (back, host, port, security) = decode_aead_header(ID, &a).unwrap();
    assert!(matches!(host, TargetHost::Name(h) if h == "h.example"));
    assert_eq!((port, security), (80, SECURITY_AES128_GCM));
    assert_eq!(back.request_body_iv, sess.request_body_iv);
    assert_eq!(back.response_body_key, sess.response_body_key);
    assert!(decode_aead_header("22222222-2222-2222-2222-222222222222", &a).is_err());
    assert!(decode_aead_header(ID, &a[..40]).is_err());
    // The id of the request: a time, random bytes and their checksum, encrypted.
    let key = vmess_kdf_1_one_shot(&cmd_key_from_uuid(ID).unwrap(), "AES Auth ID Encryption");
    let cipher = aes::Aes128::new_from_slice(&key[..16]).unwrap();
    let mut id = *aes::Block::from_slice(&a[..16]);
    cipher.decrypt_block(&mut id);
    assert_eq!(id[..12], [&1000u64.to_be_bytes()[..], &[4; 4]].concat());
    let mut crc = u32::MAX;
    for b in &id[..12] {
        crc ^= *b as u32;
        for _ in 0..8 {
            crc = if crc % 2 == 1 { crc / 2 ^ 0xEDB8_8320 } else { crc / 2 };
        }
    }
    assert_eq!(id[12..], (!crc).to_be_bytes());
    // Without authenticated headers the request is another one.
    let old = ClientSession::new(false);
    let c = encode_request(ID, "h.example", 80, SECURITY_AES128_GCM, &old, 1000).unwrap();
    assert!(c.len() > 16 + 41);
    let mut o = vmess_options(0);
    o.security = "rc4".into();
    assert!(dial_vmess(&o, "h", 1, 0).is_err());
    let s = VmessAuthStream::new(sess, "aes-128-gcm").unwrap();
    assert_eq!(s.closed(), "vmess eof");
    let mut s = s;
    assert!(matches!(s.read(5), VmessRead::More(18)));
    assert!(s.feed(&[0; 18]).is_err());
    assert_eq!(s.dec_nonce.count, 0xffff);
    assert!(matches!(s.read(5), VmessRead::More(18)));
    // A chunk that does not open uses a nonce up, and its bytes are gone.
    s.read_state = ReadState::Data { size: 20, padding: 0 };
    assert_eq!(s.feed(&[7; 20]), Err("vmess decrypt".to_string()));
    assert_eq!((s.dec_nonce.count, s.dec_size.pos), (0, 0));
    assert!(matches!(s.read(5), VmessRead::More(20)));
}
