use rust_clash::dns::doh::{http_body_if_complete, parse_doh_ips};
use rust_clash::dns::fake_ip::{dns_address, FakeIpPool};
use rust_clash::dns::message::{
    build_dns_query, build_empty_dns, build_named_a_response, parse_a_answers,
};
use rust_clash::inbound::rewrite_http_request;
use rust_clash::ip::Ip;
use rust_clash::relay::complete_record_len;
use rust_clash::rules::{action_for_ip, with_port, RuleAction};
use rust_clash::sysproxy::build_connection_blob;
use rust_clash::ui_state::{LaunchFlags, SavedNode, UiMode, UiState};

#[test]
fn fake_ip_pool_allocates_from_dot4() {
    let mut pool = FakeIpPool::new();
    let ip = pool.lookup("www.example.com");
    assert_eq!(ip, [198, 18, 0, 4]);
    assert_eq!(pool.lookback(ip).as_deref(), Some("www.example.com"));
    assert!(FakeIpPool::is_fake_ip_v4(ip));
    assert!(!FakeIpPool::is_fake_ip(Ip::V4(dns_address())));
}

#[test]
fn private_ip_is_direct() {
    assert_eq!(action_for_ip(Ip::V4([10, 0, 0, 1])), RuleAction::Direct);
    assert_eq!(action_for_ip(Ip::V4([8, 8, 8, 8])), RuleAction::Proxy);
}

#[test]
fn with_port_connect_defaults_to_443() {
    assert_eq!(with_port("example.com", "443").as_deref(), Some("example.com:443"));
    assert_eq!(with_port("example.com:8443", "443").as_deref(), Some("example.com:8443"));
    assert_eq!(with_port("[::1]", "443").as_deref(), Some("[::1]:443"));
}

#[test]
fn http_body_waits_for_content_length() {
    let raw = b"HTTP/1.1 200 OK\r\nContent-Length: 5\r\n\r\nhelloEXTRA";
    assert_eq!(http_body_if_complete(raw).as_deref(), Some("hello"));
    let partial = b"HTTP/1.1 200 OK\r\nContent-Length: 5\r\n\r\nhel";
    assert_eq!(http_body_if_complete(partial).as_deref(), None);
}

#[test]
fn parse_doh_accepts_numeric_and_string_types() {
    let body = r#"{"Answer":[{"type":1,"data":"1.2.3.4"},{"type":"1","data":"5.6.7.8"}]}"#;
    let ips = parse_doh_ips(body).unwrap();
    assert_eq!(ips.len(), 2);
    assert!(ips.contains(&Ip::V4([1, 2, 3, 4])));
    assert!(ips.contains(&Ip::V4([5, 6, 7, 8])));
}

#[test]
fn parse_udp_a_from_named_response() {
    let ip = [1, 2, 3, 4];
    let msg = build_named_a_response(42, "example.com", ip);
    let ips = parse_a_answers(&msg).expect("parse A");
    assert_eq!(ips, vec![ip]);
    let q = build_dns_query(7, "Example.COM");
    assert_eq!(&q[0..2], &7u16.to_be_bytes());
    assert!(q.len() > 12);
}

#[test]
fn empty_aaaa_is_success_not_nxdomain() {
    let msg = build_empty_dns(7, "www.google.com", 28);
    assert_eq!(&msg[2..4], &0x8180u16.to_be_bytes());
    assert_eq!(u16::from_be_bytes([msg[6], msg[7]]), 0);
}

#[test]
fn win11_blob_keeps_version_increments_counter() {
    let mut old = vec![0u8; 32];
    old[0] = 0x47;
    old[4] = 0xB8;
    old[5] = 0x15;
    old[8] = 0x01;
    let b = build_connection_blob(true, "127.0.0.1:7887", "localhost", Some(&old));
    assert_eq!(&b[0..4], &[0x47, 0, 0, 0]);
    assert_eq!(&b[4..8], &[0xB9, 0x15, 0, 0]);
    assert_eq!(&b[8..12], &[3, 0, 0, 0]);
    assert_eq!(&b[12..16], &[14, 0, 0, 0]);
    assert_eq!(&b[16..30], b"127.0.0.1:7887");
}

#[test]
fn strips_hop_by_hop_and_rewrites_absolute_uri() {
    let raw = b"GET http://example.com/foo?q=1 HTTP/1.1\r\nHost: example.com\r\nProxy-Connection: keep-alive\r\nUser-Agent: x\r\n\r\nbody";
    let out = String::from_utf8(rewrite_http_request(raw)).unwrap();
    assert!(out.starts_with("GET /foo?q=1 HTTP/1.1\r\n"));
    assert!(out.to_ascii_lowercase().contains("host: example.com"));
    assert!(out.contains("User-Agent: x"));
    assert!(!out.to_ascii_lowercase().contains("proxy-connection"));
    assert!(out.ends_with("body"));
}

#[test]
fn incomplete_pq_hello_is_not_a_full_record() {
    // Chrome PQ ClientHello is ~1500B; a 517B TCP segment is not a record.
    let mut hello = vec![0x16, 0x03, 0x01, 0x05, 0xdc];
    hello.extend(vec![0u8; 512]);
    assert_eq!(hello.len(), 517);
    assert_eq!(complete_record_len(&hello), None);
    hello.extend(vec![0u8; 1500 - 512]);
    assert_eq!(complete_record_len(&hello), Some(5 + 1500));
}

#[test]
fn missing_file_is_off() {
    assert_eq!(UiState::load(None), UiState::default());
    let loaded = UiState::load_from(None, None);
    assert_eq!(loaded, UiState::default());
    assert_eq!(loaded.mode, UiMode::Off);
}

#[test]
fn roundtrip_enhance_and_node() {
    let state = UiState {
        mode: UiMode::Enhance,
        node: Some(SavedNode { name: "hk".into(), server: "example.com".into(), port: 443 }),
    };
    let text = state.save();
    let loaded = UiState::load_from(Some(&text), None);
    assert_eq!(loaded, state);
}

#[test]
fn garbage_file_is_off() {
    assert_eq!(UiState::load_from(Some("{not json"), None).mode, UiMode::Off);
}

#[test]
fn launch_flags_parse_enhance_and_pid() {
    let f = LaunchFlags::from_args(&["--start-enhance", "--wait-pid=4242"]);
    assert!(f.start_enhance);
    assert_eq!(f.wait_pid, Some(4242));
    let empty = LaunchFlags::from_args(&["--help"]);
    assert!(!empty.start_enhance);
    assert_eq!(empty.wait_pid, None);
}
