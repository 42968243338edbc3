use rust_clash::proxynet::crypto::{sha224_hex_lower, uuid_write_be, SHA224_HEX_SIZE, UUID_SIZE};
use rust_clash::proxynet::transport::{parse_ws_frame, WsEvent};

#[test]
fn sha224_password_hex() {
    let mut dest = [0u8; SHA224_HEX_SIZE];
    sha224_hex_lower(b"password", &mut dest);
    assert_eq!(
        std::str::from_utf8(&dest).unwrap(),
        "d63dc919e201d7bc4c825630d2cf25fdc93d4b2f0d46706d29038d01"
    );
}

#[test]
fn uuid_canonical() {
    let mut dest = [0u8; UUID_SIZE];
    assert!(uuid_write_be("11111111-1111-1111-1111-111111111111", &mut dest));
    assert_eq!(dest, [0x11; 16]);
}

#[test]
fn parses_unmasked_binary_frame() {
    let mut frame = vec![0x82, 0x05];
    frame.extend_from_slice(b"hello");
    let (n, ev) = parse_ws_frame(&frame).unwrap().unwrap();
    assert_eq!(n, 7);
    match ev {
        WsEvent::Payload(p) => assert_eq!(p, b"hello"),
        _ => panic!("expected payload"),
    }
}

#[test]
fn incomplete_frame_returns_none() {
    assert!(parse_ws_frame(&[0x82, 0x05, b'h']).unwrap().is_none());
}
