use rust_clash::ip::Ip;
use rust_clash::proxynet::crypto::{sha224_hex_lower, SHA224_HEX_SIZE};
use rust_clash::proxynet::dial::establish_trojan;
use rust_clash::proxynet::http_connect::{connect_request, read_answer, ConnectStep};
use rust_clash::proxynet::obfs::{HttpObfsStream, ObfsRead};
use rust_clash::proxynet::options::{
    HttpProxyOptions, SocksOptions, SsOptions, TrojanOptions, VmessOptions,
};
use rust_clash::proxynet::outgoing::Outgoing;
use rust_clash::proxynet::reality::record::{ContentType, TlsRecordStream};
use rust_clash::proxynet::reality::stream::{RealityTlsStream, TlsRead};
use rust_clash::proxynet::socks::{SocksAction, SocksDial};
use rust_clash::proxynet::ss::{dial_ss, supported_cipher, ShadowedStream, SsCipher, SsRead};
use rust_clash::proxynet::trojan::{ATYP_DOMAIN, ATYP_IPV4, ATYP_IPV6, CMD_TCP};
use rust_clash::proxynet::vision::{VisionRead, VisionStream, CMD_CONTINUE, CMD_DIRECT};
use rust_clash::proxynet::vmess::crypto::{BodyAead, ShakeSizeParser, VmessNonce};
use rust_clash::proxynet::vmess::protocol::{
    aead_header_payload_len, cmd_key_from_uuid, decode_aead_header, encode_aead_response,
    encode_request, ClientSession, TargetHost, AEAD_HEADER_PREFIX, SECURITY_AES128_GCM,
    SECURITY_CHACHA20,
};
use rust_clash::proxynet::vmess::stream::{dial_vmess, VmessRead};

/// Writes what an outgoing frame holds, so many bytes at a time.
fn drain(out: &mut Outgoing, step: usize, wire: &mut Vec<u8>) {
    loop {
        let n = out.rest().len().min(step.max(1));
        wire.extend_from_slice(&out.rest()[..n]);
        if out.wrote(n) {
            return;
        }
    }
}

/// Takes bytes from the front of what was written.
fn take(wire: &mut Vec<u8>, n: usize) -> Vec<u8> {
    let rest = wire.split_off(n);
    std::mem::replace(wire, rest)
}

fn ss_write(s: &mut ShadowedStream, mut data: &[u8], wire: &mut Vec<u8>) {
    while !data.is_empty() {
        s.begin_write(data);
        drain(&mut s.out, 1000, wire);
        let n = s.out.finish();
        data = &data[n..];
    }
}

fn ss_read(s: &mut ShadowedStream, max: usize, wire: &mut Vec<u8>) -> Vec<u8> {
    loop {
        match s.read(max) {
            SsRead::Data(d) => return d,
            SsRead::More(n) => s.feed(&take(wire, n)).unwrap(),
            other => panic!("{other:?}"),
        }
    }
}

fn ss_read_exact(s: &mut ShadowedStream, n: usize, wire: &mut Vec<u8>) -> Vec<u8> {
    let mut got = Vec::new();
    while got.len() < n {
        got.extend(ss_read(s, n - got.len(), wire));
    }
    got
}

#[test]
fn aead_roundtrip_chacha() {
    let mut client = ShadowedStream::new("chacha20-ietf-poly1305", "secret").unwrap();
    let mut server = ShadowedStream::new("chacha20-ietf-poly1305", "secret").unwrap();
    let payload = b"hello-shadowsocks";
    let mut wire = Vec::new();
    ss_write(&mut client, payload, &mut wire);
    let buf = ss_read_exact(&mut server, payload.len(), &mut wire);
    assert_eq!(&buf, payload);
}

#[test]
fn aead_roundtrip_aes256() {
    let mut client = ShadowedStream::new("aes-256-gcm", "pw").unwrap();
    let mut server = ShadowedStream::new("aes-256-gcm", "pw").unwrap();
    let payload = vec![7u8; 4000];
    let mut wire = Vec::new();
    ss_write(&mut client, &payload, &mut wire);
    let buf = ss_read_exact(&mut server, payload.len(), &mut wire);
    assert_eq!(buf, payload);
}

#[test]
fn rejects_stream_cipher() {
    assert!(SsCipher::parse("aes-256-cfb").is_none());
    assert!(supported_cipher("aes-128-gcm"));
}

fn skip_socks_addr(s: &mut ShadowedStream, wire: &mut Vec<u8>) {
    let atyp = ss_read_exact(s, 1, wire);
    let n = match atyp[0] {
        0x01 => 4,
        0x04 => 16,
        0x03 => ss_read_exact(s, 1, wire)[0] as usize,
        other => panic!("atyp {other}"),
    };
    ss_read_exact(s, n + 2, wire);
}

fn ss_tcp_echo(method: &str) {
    let opts = SsOptions {
        method: method.into(),
        password: "secret".into(),
        host: "127.0.0.1".into(),
        port: 8388,
        plugin: None,
        plugin_opts: None,
        transport: "tcp".into(),
        path: None,
        host_header: None,
        sni: None,
        alpn: Vec::new(),
        allow_insecure: false,
        tls: false,
    };
    let mut client = dial_ss(&opts, "1.2.3.4", 80).unwrap();
    let mut up = Vec::new();
    let request = client.request.clone();
    ss_write(&mut client.stream, &request, &mut up);
    ss_write(&mut client.stream, b"ping-ss", &mut up);

    let mut server = ShadowedStream::new(method, "secret").unwrap();
    skip_socks_addr(&mut server, &mut up);
    let data = ss_read(&mut server, 64, &mut up);
    let mut down = Vec::new();
    ss_write(&mut server, &data, &mut down);
    let buf = ss_read_exact(&mut client.stream, 7, &mut down);
    assert_eq!(&buf, b"ping-ss");
}

#[test]
fn ss_tcp_echo_chacha_and_aes() {
    ss_tcp_echo("chacha20-ietf-poly1305");
    ss_tcp_echo("aes-128-gcm");
    ss_tcp_echo("aes-256-gcm");
}

#[test]
fn http_connect_200() {
    let opts = HttpProxyOptions { username: None, password: None };
    let text = connect_request(&opts, "example.com", 443);
    assert!(text.starts_with("CONNECT example.com:443"));
    assert!(matches!(
        read_answer(b"HTTP/1.1 200 Connection Established\r\n\r\n"),
        ConnectStep::Open
    ));
}

#[test]
fn http_connect_tunnels_payload() {
    let opts = HttpProxyOptions { username: Some("user".into()), password: Some("pass".into()) };
    let text = connect_request(&opts, "1.2.3.4", 80);
    assert!(text.ends_with("\r\n\r\n"));
    assert!(text.contains("CONNECT 1.2.3.4:80"));
    assert!(text.contains("Proxy-Authorization: Basic "));

    // The answer is read a byte at a time; what follows it is left to the tunnel.
    let mut wire = b"HTTP/1.1 200 Connection Established\r\n\r\nping-http".to_vec();
    let mut answer = Vec::new();
    loop {
        answer.extend(take(&mut wire, 1));
        match read_answer(&answer) {
            ConnectStep::More => {}
            ConnectStep::Open => break,
            ConnectStep::Fail(e) => panic!("{e:?}"),
        }
    }
    assert_eq!(&wire, b"ping-http");
}

fn blank_line(b: &[u8]) -> Option<usize> {
    b.windows(4).position(|w| w == b"\r\n\r\n").map(|i| i + 4)
}

#[test]
fn http_obfs_tunnels_payload() {
    let mut stream = HttpObfsStream::new("/".into(), "download.windowsupdate.com".into());
    assert!(!stream.begin_write(b"ping-obfs"));
    let mut up = Vec::new();
    drain(&mut stream.out, 256, &mut up);
    assert_eq!(stream.out.finish(), 9);

    let body = up[blank_line(&up).unwrap()..].to_vec();
    let mut down = b"HTTP/1.1 101 Switching Protocols\r\nUpgrade: websocket\r\nConnection: Upgrade\r\n\r\n".to_vec();
    down.extend_from_slice(&body);

    assert!(matches!(stream.read(9), ObfsRead::More));
    stream.feed(&down);
    match stream.read(9) {
        ObfsRead::Data(d) => assert_eq!(&d, b"ping-obfs"),
        other => panic!("{other:?}"),
    }
    assert!(matches!(stream.read(9), ObfsRead::Through));
}

/// A SOCKS5 server that takes the request in `up` and answers.
fn socks_request_len(up: &[u8]) -> usize {
    let address_len = match up[3] {
        0x01 => 4,
        0x04 => 16,
        0x03 => 1 + up[4] as usize,
        other => panic!("{other}"),
    };
    4 + address_len + 2
}

#[test]
fn socks5_noauth_handshake() {
    let opts = SocksOptions { username: None, password: None };
    let mut dial = SocksDial::new(&opts, "example.com", 80);
    let greeting = dial.greet();
    assert_eq!(greeting.len(), 2 + greeting[1] as usize);
    let request = match dial.answered(&[0x05, 0x00]) {
        SocksAction::Send(b) => b,
        other => panic!("{other:?}"),
    };
    assert_eq!(request.len(), socks_request_len(&request));
    let mut down = vec![0x05, 0x00, 0x00, 0x01, 0, 0, 0, 0, 0, 0];
    loop {
        let n = dial.wanted();
        match dial.answered(&take(&mut down, n)) {
            SocksAction::Read => {}
            SocksAction::Done => break,
            other => panic!("{other:?}"),
        }
    }
    assert!(down.is_empty());
}

#[test]
fn socks5_userpass_tunnels_payload() {
    let opts = SocksOptions { username: Some("alice".into()), password: Some("secret".into()) };
    let mut dial = SocksDial::new(&opts, "example.com", 80);
    let greeting = dial.greet();
    assert!(greeting[2..].contains(&0x02));
    assert_eq!(dial.wanted(), 2);
    let auth = match dial.answered(&[0x05, 0x02]) {
        SocksAction::Send(b) => b,
        other => panic!("{other:?}"),
    };
    assert_eq!(auth[0], 0x01);
    let ulen = auth[1] as usize;
    assert_eq!(&auth[2..2 + ulen], b"alice");
    let plen = auth[2 + ulen] as usize;
    assert_eq!(&auth[3 + ulen..3 + ulen + plen], b"secret");
    assert_eq!(auth.len(), 3 + ulen + plen);
    assert_eq!(dial.wanted(), 2);
    let request = match dial.answered(&[0x01, 0x00]) {
        SocksAction::Send(b) => b,
        other => panic!("{other:?}"),
    };
    assert_eq!(request.len(), socks_request_len(&request));
    let mut down = vec![0x05, 0x00, 0x00, 0x01, 0, 0, 0, 0, 0, 0];
    down.extend_from_slice(b"ping-socks");
    loop {
        let n = dial.wanted();
        match dial.answered(&take(&mut down, n)) {
            SocksAction::Read => {}
            SocksAction::Done => break,
            other => panic!("{other:?}"),
        }
    }
    assert_eq!(&down, b"ping-socks");
}

#[test]
fn trojan_tcp_tunnels_payload() {
    let password = "trojan-secret";
    let opts = TrojanOptions {
        password: password.into(),
        host: "127.0.0.1".into(),
        port: 443,
        transport: "tcp".into(),
        path: None,
        host_header: None,
        sni: None,
        alpn: Vec::new(),
        allow_insecure: false,
    };
    let mut up = establish_trojan(&opts, "example.com", 443).unwrap();
    up.extend_from_slice(b"ping-trojan");

    let mut expect_hash = [0u8; SHA224_HEX_SIZE];
    sha224_hex_lower(password.as_bytes(), &mut expect_hash);
    let hash = take(&mut up, SHA224_HEX_SIZE + 2);
    assert_eq!(&hash[..SHA224_HEX_SIZE], &expect_hash);
    assert_eq!(&hash[SHA224_HEX_SIZE..], b"\r\n");
    assert_eq!(take(&mut up, 1)[0], CMD_TCP);
    let n = match take(&mut up, 1)[0] {
        ATYP_IPV4 => 4,
        ATYP_IPV6 => 16,
        ATYP_DOMAIN => take(&mut up, 1)[0] as usize,
        other => panic!("{other}"),
    };
    let rest = take(&mut up, n + 2 + 2);
    assert_eq!(&rest[n + 2..], b"\r\n");
    assert_eq!(&up, b"ping-trojan");
}

/// Writes data through a stream, so many bytes at a time.
fn vision_write(s: &mut VisionStream, mut data: &[u8], step: usize, wire: &mut Vec<u8>) {
    while !data.is_empty() {
        assert!(!s.begin_write(data));
        drain(&mut s.out, step, wire);
        let n = s.finish_uplink_frame();
        data = &data[n..];
    }
}

#[test]
fn vision_write_survives_pending_and_partial() {
    let uuid = [7u8; 16];
    let mut stream = VisionStream::new(uuid);
    let payload = vec![0x16u8; 40];
    let mut out = Vec::new();
    assert!(!stream.begin_write(&payload));
    // Nothing goes out at first: the frame stays as it was begun.
    let frame = stream.out.rest().to_vec();
    assert!(!stream.begin_write(&payload));
    assert!(!stream.begin_write(&payload));
    assert_eq!(stream.out.rest(), frame.as_slice());
    vision_write(&mut stream, &payload, 11, &mut out);
    assert!(out.len() > 16 + 5 + 40, "frame too short: {}", out.len());
    assert_eq!(&out[..16], &uuid);
    assert_eq!(out[16], CMD_CONTINUE);
    let content_len = u16::from_be_bytes([out[17], out[18]]) as usize;
    assert_eq!(content_len, 40);
    assert_eq!(&out[21..61], payload.as_slice());
    let uuid_hits = out.windows(16).filter(|w| *w == uuid).count();
    assert_eq!(uuid_hits, 1, "partial write restaged the Vision frame");
}

#[test]
fn first_uplink_write_of_full_hello_is_one_vision_frame() {
    let uuid = [3u8; 16];
    let mut stream = VisionStream::new(uuid);
    let mut hello = vec![0x16, 0x03, 0x01];
    hello.extend_from_slice(&(1500u16).to_be_bytes());
    hello.extend(vec![9u8; 1500]);
    let mut out = Vec::new();
    vision_write(&mut stream, &hello, usize::MAX, &mut out);
    assert_eq!(&out[..16], &uuid);
    assert_eq!(out[16], CMD_CONTINUE);
    let content_len = u16::from_be_bytes([out[17], out[18]]) as usize;
    assert_eq!(content_len, hello.len());
    assert_eq!(&out[21..21 + hello.len()], hello.as_slice());
}

#[test]
fn first_uplink_write_of_517_prefix_frames_an_incomplete_record() {
    let uuid = [4u8; 16];
    let mut stream = VisionStream::new(uuid);
    let mut hello = vec![0x16, 0x03, 0x01];
    hello.extend_from_slice(&(1500u16).to_be_bytes());
    hello.extend(vec![9u8; 1500]);
    let mut out = Vec::new();
    vision_write(&mut stream, &hello[..517], usize::MAX, &mut out);
    let content_len = u16::from_be_bytes([out[17], out[18]]) as usize;
    assert_eq!(content_len, 517);
    assert!(complete_tls_record_len(&out[21..21 + 517]).is_none());
}

fn complete_tls_record_len(data: &[u8]) -> Option<usize> {
    if data.len() < 5 || data[0] != 0x16 {
        return None;
    }
    let frag = ((data[3] as usize) << 8) | data[4] as usize;
    let rec = 5 + frag;
    if data.len() >= rec {
        Some(rec)
    } else {
        None
    }
}

#[test]
fn direct_splices_reads_keeps_writes_on_session() {
    let uuid = [9u8; 16];
    let mut to_read = uuid.to_vec();
    to_read.extend([CMD_DIRECT, 0, 0, 0, 0]);
    to_read.extend(b"FROM-FRAME");
    let mut stream = VisionStream::new(uuid);
    stream.feed(&to_read);
    match stream.read(32) {
        VisionRead::Detach(leftover) => {
            let mut rest = leftover;
            rest.extend_from_slice(b"FROM-TCP");
            assert_eq!(&rest, b"FROM-FRAMEFROM-TCP");
        }
        other => panic!("{other:?}"),
    }

    let payload = vec![0x16u8; 20];
    let mut out = Vec::new();
    // Data is framed for the session, none of it goes out as it is.
    vision_write(&mut stream, &payload, 4096, &mut out);
    assert_eq!(&out[..16], &uuid);
    assert_eq!(out[16], CMD_CONTINUE);
    let content_len = u16::from_be_bytes([out[17], out[18]]) as usize;
    assert_eq!(content_len, 20);
    assert_eq!(&out[21..41], payload.as_slice());
}

#[test]
fn aead_header_is_nonempty() {
    let sess = ClientSession::new(true);
    let bytes = encode_request(
        "11111111-1111-1111-1111-111111111111",
        "example.com",
        443,
        SECURITY_AES128_GCM,
        &sess,
        1_700_000_000,
    )
    .unwrap();
    assert!(bytes.len() > 16 + 18 + 8);
    let (decoded, host, port, security) =
        decode_aead_header("11111111-1111-1111-1111-111111111111", &bytes).unwrap();
    assert!(matches!(host, TargetHost::Name(h) if h == "example.com"));
    assert_eq!(port, 443);
    assert_eq!(security, SECURITY_AES128_GCM);
    assert_eq!(decoded.response_header, sess.response_header);
    assert_eq!(decoded.request_body_key, sess.request_body_key);
}

fn echo_one_chunk(up: &mut Vec<u8>, down: &mut Vec<u8>, sess: &ClientSession, security: &str) {
    let dec = BodyAead::new(security, &sess.request_body_key).unwrap();
    let enc = BodyAead::new(security, &sess.response_body_key).unwrap();
    let mut dec_nonce = VmessNonce::new(&sess.request_body_iv, 12);
    let mut enc_nonce = VmessNonce::new(&sess.response_body_iv, 12);
    let mut dec_size = ShakeSizeParser::new(&sess.request_body_iv);
    let mut enc_size = ShakeSizeParser::new(&sess.response_body_iv);
    let hdr = take(up, 2);
    let padding = dec_size.next_padding_len() as usize;
    let size = dec_size.decode(&hdr) as usize;
    let mut data = take(up, size);
    data.truncate(size.saturating_sub(padding));
    let nonce = dec_nonce.next();
    dec.open(&nonce, &mut data).unwrap();

    let padding = enc_size.next_padding_len() as usize;
    let payload_len = data.len() + 16 + padding;
    let masked = enc_size.encode(payload_len as u16);
    let nonce = enc_nonce.next();
    enc.seal(&nonce, &mut data);
    down.extend_from_slice(&masked);
    down.extend_from_slice(&data);
    down.extend_from_slice(&vec![0u8; padding]);
}

fn vmess_tcp_echo(security: &str) {
    let uuid = "11111111-1111-1111-1111-111111111111";
    let opts = VmessOptions {
        id: uuid.into(),
        security: security.into(),
        alter_id: 0,
        host: "127.0.0.1".into(),
        port: 443,
        transport: "tcp".into(),
        path: None,
        host_header: None,
        sni: None,
        alpn: Vec::new(),
        allow_insecure: false,
        tls: false,
    };
    let (mut stream, mut up) = dial_vmess(&opts, "example.com", 80, 1_700_000_000).unwrap();
    stream.begin_write(b"ping-vmess").unwrap();
    drain(&mut stream.out, 7, &mut up);
    assert_eq!(stream.out.finish(), 10);

    let mut packet = take(&mut up, AEAD_HEADER_PREFIX);
    let key = cmd_key_from_uuid(uuid).unwrap();
    let payload_len = aead_header_payload_len(&key, &packet).unwrap();
    packet.extend(take(&mut up, payload_len + 16));
    let (sess, host, port, sec) = decode_aead_header(uuid, &packet).unwrap();
    assert!(matches!(host, TargetHost::Name(h) if h == "example.com"));
    assert_eq!(port, 80);
    let name = match sec {
        SECURITY_AES128_GCM => "aes-128-gcm",
        SECURITY_CHACHA20 => "chacha20-poly1305",
        other => panic!("sec {other}"),
    };
    let mut down = encode_aead_response(&sess);
    echo_one_chunk(&mut up, &mut down, &sess, name);

    let mut buf = Vec::new();
    while buf.len() < 10 {
        match stream.read(10 - buf.len()) {
            VmessRead::Data(d) => buf.extend(d),
            VmessRead::More(n) => stream.feed(&take(&mut down, n)).unwrap(),
            VmessRead::Fail(e) => panic!("{e}"),
        }
    }
    assert_eq!(&buf, b"ping-vmess");
}

#[test]
fn vmess_aead_tcp_echo_aes_and_chacha() {
    vmess_tcp_echo("aes-128-gcm");
    vmess_tcp_echo("chacha20-poly1305");
}

fn tls_record(ty: u8, payload: &[u8]) -> Vec<u8> {
    let mut out = vec![ty, 3, 3, (payload.len() >> 8) as u8, payload.len() as u8];
    out.extend_from_slice(payload);
    out
}

#[test]
fn skips_new_session_ticket_and_ccs() {
    let mut wire = tls_record(20, &[1]);
    wire.extend(tls_record(22, &[4, 0, 0, 0]));
    wire.extend(tls_record(23, b"hello"));
    let mut stream = RealityTlsStream::new(TlsRecordStream::new(), Vec::new());
    stream.feed(&wire);
    match stream.read(16) {
        TlsRead::Data(d) => assert_eq!(&d, b"hello"),
        other => panic!("{other:?}"),
    }
}

#[test]
fn write_survives_pending_and_partial() {
    let mut stream = RealityTlsStream::new(TlsRecordStream::new(), Vec::new());
    let payload = vec![0xAAu8; 30];
    stream.begin_write(&payload);
    let record = stream.records.out.rest().to_vec();
    stream.begin_write(&payload);
    stream.begin_write(&payload);
    assert_eq!(stream.records.out.rest(), record.as_slice());
    let mut out = Vec::new();
    drain(&mut stream.records.out, 5, &mut out);
    assert_eq!(stream.records.out.finish(), 30);
    assert_eq!(out.len(), 5 + 30, "expected one TLS record, got {}", out.len());
    assert_eq!(out[0], ContentType::ApplicationData.to_u8());
    assert_eq!(u16::from_be_bytes([out[3], out[4]]) as usize, 30);
    assert_eq!(&out[5..], payload.as_slice());
}

#[test]
fn vmess_decodes_an_address() {
    let sess = ClientSession::new(true);
    let id = "11111111-1111-1111-1111-111111111111";
    let bytes = encode_request(id, "10.1.2.3", 8080, SECURITY_CHACHA20, &sess, 0).unwrap();
    let (_, host, port, security) = decode_aead_header(id, &bytes).unwrap();
    assert!(matches!(host, TargetHost::Address(Ip::V4([10, 1, 2, 3]))));
    assert_eq!(port, 8080);
    assert_eq!(security, SECURITY_CHACHA20);
}
