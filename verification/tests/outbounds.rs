use rust_clash::config::catalog::NodeCatalog;
use rust_clash::config::node::{NodeFilter, ProxyNode};
use rust_clash::outbound::{to_edge, to_http, to_outbound, to_socks, to_ss, to_vmess};
use rust_clash::proxynet::dial::{dial, establish, Layers, Security, Session};
use rust_clash::proxynet::error::ProxyErrorCode;
use rust_clash::proxynet::obfs::Plugin;
use rust_clash::proxynet::options::OutboundKind;
use rust_clash::proxynet::transport::TransportKind;

const ID: &str = "11111111-1111-1111-1111-111111111111";

fn node(kind: &str) -> ProxyNode {
    ProxyNode {
        name: "n".into(),
        kind: kind.into(),
        server: "s.example".into(),
        port: 8388,
        uuid: Some(ID.into()),
        password: Some("secret".into()),
        username: Some("user".into()),
        network: "tcp".into(),
        ..ProxyNode::default()
    }
}

fn layers(n: &ProxyNode) -> Layers {
    let o = to_outbound(n, "9.9.9.9");
    dial(&n.kind, o.as_ref(), &to_edge(n, "9.9.9.9")).unwrap()
}

fn session(n: &ProxyNode) -> Session {
    establish(&to_outbound(n, "9.9.9.9").unwrap(), "ab", 443, 1_700_000_000).ok().unwrap()
}

#[test]
fn options_of_a_shadowsocks_node() {
    let mut n = node("ss");
    let o = to_ss(&n, "9.9.9.9");
    assert_eq!((o.method.as_str(), o.password.as_str()), ("aes-256-gcm", "secret"));
    assert_eq!((o.host.as_str(), o.port, o.transport.as_str()), ("9.9.9.9", 8388, "tcp"));
    assert!(!o.tls && o.plugin.is_none());
    n.cipher = Some("chacha20-ietf-poly1305".into());
    n.plugin = Some("obfs".into());
    n.plugin_opts = Some("obfs=tls;obfs-host=h.example".into());
    n.network = String::new();
    n.tls = true;
    n.skip_cert_verify = true;
    n.server_name = Some("sni.example".into());
    let o = to_ss(&n, "9.9.9.9");
    assert_eq!(o.method, "chacha20-ietf-poly1305");
    assert_eq!(o.plugin.as_deref(), Some("obfs"));
    assert_eq!(o.plugin_opts.as_deref(), Some("obfs=tls;obfs-host=h.example"));
    assert_eq!((o.transport.as_str(), o.sni_or_host()), ("tcp", "sni.example"));
    assert!(o.tls && o.allow_insecure);
}

#[test]
fn options_of_the_other_nodes() {
    let mut n = node("vmess");
    n.alter_id = 2;
    let o = to_vmess(&n, "9.9.9.9");
    assert_eq!((o.id.as_str(), o.security.as_str(), o.alter_id), (ID, "", 2));
    assert_eq!(o.body_security(), "aes-128-gcm");
    n.cipher = Some("chacha20-poly1305".into());
    n.ws_host = Some("w.example".into());
    let o = to_vmess(&n, "9.9.9.9");
    assert_eq!(o.security, "chacha20-poly1305");
    assert_eq!(o.sni_or_host(), "w.example");
    let n = node("socks5");
    let o = to_socks(&n);
    assert_eq!((o.username.as_deref(), o.password.as_deref()), (Some("user"), Some("secret")));
    let o = to_http(&n);
    assert_eq!((o.username.as_deref(), o.password.as_deref()), (Some("user"), Some("secret")));
    let e = to_edge(&n, "9.9.9.9");
    assert!(!e.tls && e.sni_or_host() == "9.9.9.9");
    assert!(matches!(to_outbound(&node("VLESS"), "h"), Some(OutboundKind::Vless(_))));
    assert!(matches!(to_outbound(&node("trojan"), "h"), Some(OutboundKind::Trojan(_))));
    assert!(matches!(to_outbound(&node("SS"), "h"), Some(OutboundKind::Shadowsocks(_))));
    assert!(matches!(to_outbound(&node("VMess"), "h"), Some(OutboundKind::Vmess(_))));
    assert!(matches!(to_outbound(&node("Socks5"), "h"), Some(OutboundKind::Socks5(_))));
    assert!(matches!(to_outbound(&node("HTTP"), "h"), Some(OutboundKind::Http(_))));
    assert!(to_outbound(&node("snell"), "h").is_none());
}

#[test]
fn every_outbound_has_its_layers() {
    for kind in ["vless", "ss", "VMESS", "socks5", "Http"] {
        let l = layers(&node(kind));
        assert!(matches!(l.security, Security::Plain), "{kind}");
        assert_eq!(l.transport, TransportKind::RawTcp, "{kind}");
    }
    for kind in ["VLess", "Trojan", "SS", "vmess", "SOCKS5", "http"] {
        let mut n = node(kind);
        n.tls = true;
        n.server_name = Some("sni.example".into());
        match layers(&n).security {
            Security::Tls { name, insecure, .. } => assert!(name == "sni.example" && !insecure),
            other => panic!("{kind} {other:?}"),
        }
    }
    for kind in ["vless", "trojan", "ss", "vmess"] {
        let mut n = node(kind);
        n.network = "ws".into();
        n.ws_path = Some("p".into());
        n.ws_host = Some("w.example".into());
        let l = layers(&n);
        assert_eq!(l.transport, TransportKind::WebSocket, "{kind}");
        assert_eq!((l.path.as_str(), l.host.as_str()), ("/p", "w.example"), "{kind}");
        n.network = "grpc".into();
        let o = to_outbound(&n, "9.9.9.9");
        let e = dial(kind, o.as_ref(), &to_edge(&n, "9.9.9.9")).unwrap_err();
        assert_eq!(e.code, ProxyErrorCode::TransportUpgradeFailed, "{kind}");
        assert!(e.message.ends_with(" transport 'grpc' is not supported"), "{}", e.message);
    }
    let mut n = node("ss");
    n.network = "quic".into();
    let o = to_outbound(&n, "h");
    let e = dial("ss", o.as_ref(), &to_edge(&n, "h")).unwrap_err();
    assert_eq!(e.message, "Shadowsocks transport 'quic' is not supported");
    n.kind = "vmess".into();
    let o = to_outbound(&n, "h");
    let e = dial("vmess", o.as_ref(), &to_edge(&n, "h")).unwrap_err();
    assert_eq!(e.message, "VMess transport 'quic' is not supported");
}

#[test]
fn every_outbound_begins() {
    assert!(matches!(session(&node("vless")), Session::Vless(s) if s.request[1..17] == [0x11; 16]));
    assert!(matches!(session(&node("trojan")), Session::Trojan(b) if b.ends_with(&[1, 187, 13, 10])));
    match session(&node("ss")) {
        Session::Shadowsocks(s) => {
            assert!(matches!(s.plugin, Plugin::Plain));
            assert_eq!(s.request, [3, 2, b'a', b'b', 1, 187]);
        }
        _ => panic!(),
    }
    let mut n = node("ss");
    n.plugin = Some("simple-obfs".into());
    assert!(matches!(
        session(&n),
        Session::Shadowsocks(s) if matches!(&s.plugin, Plugin::Http { path, host } if path == "/" && host == "9.9.9.9")
    ));
    assert!(matches!(session(&node("vmess")), Session::Vmess(s, b) if s.sess.aead && b.len() > 16));
    let mut n = node("vmess");
    n.alter_id = 1;
    assert!(matches!(session(&n), Session::Vmess(s, _) if !s.sess.aead));
    match session(&node("socks5")) {
        Session::Socks5(d) => {
            assert_eq!(d.greet(), [5, 2, 0, 2]);
            assert_eq!((d.user.as_str(), d.pass.as_str(), d.port), ("user", "secret", 443));
        }
        _ => panic!(),
    }
    match session(&node("http")) {
        Session::Http(t) => {
            assert!(t.starts_with("CONNECT ab:443 HTTP/1.1\r\nHost: ab:443\r\n"), "{t}");
            assert!(t.contains("Proxy-Authorization: Basic dXNlcjpzZWNyZXQ=\r\n"), "{t}");
        }
        _ => panic!(),
    }
}

#[test]
fn what_a_node_lacks_is_told() {
    let long = "a".repeat(256);
    let begin = |n: &ProxyNode, host: &str| {
        establish(&to_outbound(n, "h").unwrap(), host, 1, 0).err().map(|e| (e.code, e.message))
    };
    let mut n = node("vless");
    n.uuid = None;
    assert_eq!(begin(&n, "ab").unwrap().1, "VLESS user id '' is unusable");
    for kind in ["vless", "trojan", "ss", "vmess"] {
        let e = begin(&node(kind), &long).unwrap();
        assert_eq!(e.0, ProxyErrorCode::StringTooLong, "{kind}");
    }
    let mut n = node("ss");
    n.cipher = Some("rc4".into());
    assert_eq!(begin(&n, "ab").unwrap().1, "unsupported shadowsocks cipher rc4");
    n.plugin = Some("kcptun".into());
    assert_eq!(begin(&n, "ab").unwrap().1, "unsupported shadowsocks plugin kcptun");
    let mut n = node("vmess");
    n.cipher = Some("zero".into());
    assert_eq!(begin(&n, "ab").unwrap().1, "unsupported vmess cipher zero");
    n.cipher = None;
    n.uuid = None;
    assert_eq!(begin(&n, "ab").unwrap().1, "VMess uuid is unusable");
    assert!(begin(&node("socks5"), &long).is_none());
    assert!(begin(&node("http"), &long).is_none());
}

#[test]
fn nodes_of_a_subscription_are_dialled() {
    let yaml = "proxies:\n\
        - {name: a, type: Shadowsocks, server: s, port: 1, cipher: aes-128-gcm, password: p, plugin: v2ray-plugin, plugin-opts: {mode: websocket, tls: true}}\n\
        - {name: b, type: vmess, server: s, port: 2, uuid: 11111111-1111-1111-1111-111111111111, network: WebSocket}\n\
        - {name: c, type: socks, server: s, port: 3}\n\
        - {name: d, type: https, server: s, port: 4, tls: true}\n\
        - {name: e, type: trojan, server: s, port: 5, password: p, network: raw}\n\
        - {name: f, type: vless, server: s, port: 6, uuid: u, network: HttpUpgrade}\n\
        - {name: g, type: ss, server: s, port: 7, cipher: rc4, password: p}\n";
    let links = "ss://YWVzLTEyOC1nY206cA==@s.example:1#a\nsocks5://u:p@s.example:2#b\nhttps://s.example:3#c\n";
    let json = "{\"outbounds\":[{\"type\":\"socks\",\"server\":\"s\",\"server_port\":1},{\"type\":\"shadowsocks\",\"server\":\"s\",\"server_port\":2,\"method\":\"aes-128-gcm\",\"password\":\"p\"}]}";
    for (text, count) in [(yaml, 6), (links, 3), (json, 2)] {
        let nodes = NodeCatalog::parse(text.as_bytes());
        assert_eq!(nodes.len(), count, "{text}");
        for n in &nodes {
            assert!(NodeFilter::accept(n), "{}", n.name);
            assert!(["vless", "trojan", "ss", "vmess", "socks5", "http"].contains(&n.kind.as_str()));
            assert!(["tcp", "ws", "httpupgrade"].contains(&n.network.as_str()), "{}", n.network);
            layers(n);
            session(n);
        }
    }
    let nodes = NodeCatalog::parse(yaml.as_bytes());
    assert_eq!(nodes[0].kind, "ss");
    assert_eq!(layers(&nodes[0]).transport, TransportKind::WebSocket);
    assert!(matches!(layers(&nodes[0]).security, Security::Tls { name, .. } if name == "9.9.9.9"));
    assert!(matches!(layers(&nodes[3]).security, Security::Tls { .. }));
    assert_eq!(layers(&nodes[5]).transport, TransportKind::HttpUpgrade);
}
