use rust_clash::config::catalog::NodeCatalog;
use rust_clash::config::link::{parse_query, url_decode};
use rust_clash::config::node::{normalize_type, NodeFilter, ProxyNode};
use rust_clash::config::outbounds::try_parse_json;
use rust_clash::config::profiles::{
    ConfigFile, ContentStore, ProfileKind, ProfileStore, SubscriptionUserInfo,
};
use rust_clash::config::share_link::{parse_share_link, parse_ss, parse_vless, parse_vmess};
use rust_clash::config::subscription::{
    parse_cd_name, parse_profile_title, parse_userinfo_body, parse_userinfo_string,
    suggest_from_url, userinfo_fields, SubscriptionClient,
};
use rust_clash::config::yaml::{split_flow, unquote};
use rust_clash::text::{
    chars_of, format_dec, format_int, lines, parse_i64, parse_u16, replace, split, trim,
};

fn b64(s: &str) -> String {
    base64::Engine::encode(&base64::engine::general_purpose::STANDARD, s)
}

fn owned(v: Vec<char>) -> String {
    v.into_iter().collect()
}

const ID: &str = "11111111-1111-1111-1111-111111111111";

#[test]
fn texts_are_cut() {
    let s = chars_of(" a;b;;c ");
    let parts: Vec<String> = split(&s, ";").iter().map(|p| p.iter().collect()).collect();
    assert_eq!(parts, [" a", "b", "", "c "]);
    assert_eq!(trim(&s).len(), 6);
    assert_eq!(owned(replace(&s, ";", "--")), " a--b----c ");
    let l = chars_of("x\r\ny\n\nz");
    let ls: Vec<String> = lines(&l).iter().map(|p| p.iter().collect()).collect();
    assert_eq!(ls, ["x", "y", "", "z"]);
    for n in [0u64, 9, 10, 1234567890, u64::MAX] {
        assert_eq!(owned(format_dec(n)), n.to_string());
    }
    for n in [0i64, -1, i64::MIN, i64::MAX] {
        assert_eq!(owned(format_int(n)), n.to_string());
        assert_eq!(parse_i64(&chars_of(&n.to_string())), Some(n));
    }
    assert_eq!(parse_u16(&chars_of("65535")), Some(65535));
    assert_eq!(parse_u16(&chars_of("+7")), Some(7));
    assert_eq!(parse_u16(&chars_of("65536")), None);
    assert_eq!(parse_u16(&chars_of("")), None);
    assert_eq!(parse_u16(&chars_of("-1")), None);
}

#[test]
fn queries_are_read() {
    assert_eq!(owned(url_decode(&chars_of("a%20b+c%zz%"))), "a b+c%zz%");
    assert_eq!(owned(url_decode(&chars_of("%E4%+d%41"))), "\u{e4}\rA");
    let q = parse_query(&chars_of("a=1&b=x%3D&c&a=2"));
    assert_eq!(q.string("a").as_deref(), Some("2"));
    assert_eq!(q.string("b").as_deref(), Some("x="));
    assert_eq!(q.string("zz"), None);
}

#[test]
fn flow_maps_of_yaml() {
    let nodes = NodeCatalog::parse(
        b"proxies:\n  - {name: \"a, b\", type: ss, server: h.example, port: 8388, cipher: aes-128-gcm, password: 'p:w'}\n  - name: t\n    type: trojan\n    server: t.example\n    port: 443\n    password: \"x # y\"\n    sni: s.example # comment\n    network: ws\n    ws-opts:\n      path: /p\n      headers:\n        Host: w.example\nrules:\n  - x\n",
    );
    assert_eq!(nodes.len(), 2);
    assert_eq!(nodes[0].name, "a, b");
    assert_eq!(nodes[0].password.as_deref(), Some("p:w"));
    assert_eq!(nodes[0].cipher.as_deref(), Some("aes-128-gcm"));
    assert_eq!(nodes[1].password.as_deref(), Some("x # y"));
    assert_eq!(nodes[1].ws_path.as_deref(), Some("/p"));
    assert_eq!(nodes[1].ws_host.as_deref(), Some("w.example"));
    assert_eq!(owned(unquote(&chars_of("\"a\\\"b\""))), "a\"b");
    let flow = chars_of("a: 1, b: {c: 2, d: 3}, e: \"x,y\"");
    assert_eq!(split_flow(&flow).len(), 3);
}

#[test]
fn links_of_every_protocol() {
    let v = parse_vless(&format!("vless://{ID}@h.example:8443?type=ws&security=reality&pbk=k&sid=ab&sni=s.example&flow=xtls-rprx-vision&path=%2Fp&host=w.example&fp=chrome#n%201")).unwrap();
    assert_eq!((v.name.as_str(), v.server.as_str(), v.port), ("n 1", "h.example", 8443));
    assert_eq!(v.reality_public_key.as_deref(), Some("k"));
    assert_eq!(v.reality_short_id.as_deref(), Some("ab"));
    assert_eq!(v.ws_path.as_deref(), Some("/p"));
    let s = parse_ss(&format!("ss://{}@h.example:1#x", b64("aes-256-gcm:pw"))).unwrap();
    assert_eq!((s.cipher.as_deref(), s.password.as_deref()), (Some("aes-256-gcm"), Some("pw")));
    let m = parse_vmess(&format!("vmess://{}", b64(&format!(r#"{{"ps":"m","add":"h.example","port":443,"id":"{ID}","aid":"3","net":"ws","path":"/w","host":"w.example","tls":"tls"}}"#)))).unwrap();
    assert_eq!((m.kind.as_str(), m.port, m.alter_id, m.tls), ("vmess", 443, 3, true));
    assert_eq!(m.ws_path.as_deref(), Some("/w"));
    let k = parse_share_link("socks5://user:pw@h.example:1080#s").unwrap();
    assert_eq!((k.username.as_deref(), k.password.as_deref()), (Some("user"), Some("pw")));
    let t = parse_share_link("trojan://p%40ss@h.example:443#t").unwrap();
    assert_eq!(t.password.as_deref(), Some("p@ss"));
    assert!(parse_share_link("gopher://x").is_none());
    assert!(!NodeFilter::accept(&parse_share_link("vless://@h.example:1").unwrap()));
    assert!(parse_vmess("vmess://%%%").is_none());
}

#[test]
fn subscriptions_in_base64_and_json() {
    let list = format!("trojan://p@h.example:443#a\nvless://{ID}@h.example:443?type=tcp&security=tls#b\n");
    let nodes = NodeCatalog::parse(b64(&list).as_bytes());
    let names: Vec<&str> = nodes.iter().map(|n| n.name.as_str()).collect();
    assert_eq!(names, ["a", "b"]);
    for n in &nodes {
        assert!(["tcp", "ws", "httpupgrade"].contains(&n.network.as_str()));
    }
    let xray = format!(r#"{{"outbounds":[{{"tag":"x","protocol":"vless","settings":{{"vnext":[{{"address":"h.example","port":443,"users":[{{"id":"{ID}","flow":""}}]}}]}},"streamSettings":{{"network":"tcp","security":"tls","tlsSettings":{{"serverName":"s.example"}}}}}},{{"protocol":"freedom"}}]}}"#);
    let nodes = NodeCatalog::parse(xray.as_bytes());
    assert_eq!(nodes.len(), 1);
    assert_eq!((nodes[0].name.as_str(), nodes[0].server.as_str()), ("x", "h.example"));
    assert_eq!(nodes[0].server_name.as_deref(), Some("s.example"));
    let sip = r#"{"version":1,"servers":[{"remarks":"s","server":"h.example","server_port":8388,"method":"aes-128-gcm","password":"p"}]}"#;
    assert_eq!(try_parse_json(sip).len(), 1);
    let mixed = r#"{"servers":[{"server":"h.example","server_port":0,"password":"p"},{"server":"h.example","server_port":1}]}"#;
    assert!(try_parse_json(mixed).is_empty());
    let sing = format!(r#"{{"outbounds":[{{"tag":"v","type":"vless","server":"h.example","server_port":443,"uuid":"{ID}","tls":{{"enabled":true,"server_name":"s.example"}}}},{{"type":"direct","tag":"d"}}]}}"#);
    let nodes = try_parse_json(&sing);
    assert_eq!(nodes.len(), 1);
    assert_eq!((nodes[0].name.as_str(), nodes[0].tls), ("v", true));
    assert!(try_parse_json("[").is_empty());
    assert!(NodeCatalog::parse(b"").is_empty());
}

#[test]
fn nodes_are_filtered() {
    let mut n = ProxyNode {
        name: "x".into(),
        kind: "vless".into(),
        server: "1.1.1.1".into(),
        port: 443,
        uuid: Some(ID.into()),
        network: "tcp".into(),
        ..Default::default()
    };
    assert!(NodeFilter::accept(&n));
    n.flow = Some("xtls-rprx-vision".into());
    n.tls = true;
    assert!(NodeFilter::accept(&n));
    n.network = "grpc".into();
    assert!(!NodeFilter::accept(&n));
    assert_eq!(owned(normalize_type(&chars_of("SHADOWSOCKS"))), "ss");
}

#[test]
fn quotas_are_read() {
    let raw = "upload=1; download=2.5; total=10; expire=1700000000; other=9";
    let fields = userinfo_fields(raw);
    assert_eq!(fields.len(), 5);
    let fractions: Vec<Option<i64>> =
        fields.iter().map(|(_, v)| v.parse::<f64>().ok().map(|d| d as i64)).collect();
    let i = parse_userinfo_string(raw, &fractions).unwrap();
    assert_eq!((i.upload, i.download, i.total, i.expire_unix), (Some(1), Some(2), Some(10), Some(1700000000)));
    assert!(parse_userinfo_string("  ", &[]).is_none());
    assert!(parse_userinfo_string("a=1", &[]).is_none());
    let body = b"x\n# subscription-userinfo: upload=5\nrest";
    assert_eq!(parse_userinfo_body(body).as_deref(), Some("upload=5"));
    assert_eq!(parse_userinfo_body(b"nothing"), None);
}

#[test]
fn names_are_suggested() {
    assert_eq!(parse_cd_name("attachment; filename=\"My Plan.yaml\"; x").as_deref(), Some("My Plan"));
    assert_eq!(parse_cd_name("attachment; filename*=UTF-8''My%20%41.yml").as_deref(), Some("My A"));
    assert_eq!(parse_cd_name("inline"), None);
    // The stem of the last part of a path.
    assert_eq!(parse_cd_name("attachment; filename=a/b.c.yaml").as_deref(), Some("b.c"));
    assert_eq!(parse_cd_name("attachment; filename=/tmp/plan.yml/.").as_deref(), Some("plan"));
    assert_eq!(parse_cd_name("attachment; filename=d//.hidden//").as_deref(), Some(".hidden"));
    assert_eq!(parse_cd_name("attachment; filename=a/..").as_deref(), Some("a_.."));
    assert_eq!(parse_cd_name("attachment; filename=/").as_deref(), Some("_"));
    assert_eq!(parse_profile_title("base64:5Lit").as_deref(), Some("中"));
    assert_eq!(parse_profile_title("base64:!!"), None);
    assert_eq!(parse_profile_title(" a<b ").as_deref(), Some("a_b"));
    assert_eq!(suggest_from_url("https://h.example/a/sub.txt?x=1").as_deref(), Some("sub"));
    assert_eq!(suggest_from_url("https://h.example/"), None);
    let r = SubscriptionClient::result("https://h.example/q.txt", b"b".to_vec(), None, Some(" "), None).unwrap();
    assert_eq!(r.suggested_name.as_deref(), Some("q"));
    assert_eq!(r.body, b"b");
    let long = vec![0u8; 16 * 1024 * 1024 + 1];
    assert_eq!(
        SubscriptionClient::result("x", long, None, None, None).err().as_deref(),
        Some("订阅内容超过 16 MB")
    );
}

#[test]
fn contents_are_kept_by_digest() {
    let h = ContentStore::sha256_hex(b"abc");
    assert_eq!(h, "ba7816bf8f01cfea414140de5dae2223b00361a396177a9cb410ff61f20015ad");
    assert!(ContentStore::is_safe(&h));
    assert!(!ContentStore::is_safe(&h[1..]));
    assert!(!ContentStore::is_safe(&format!("{}/", &h[1..])));
    assert!(!ContentStore::unreferenced(&h, &[h.to_uppercase()]));
    assert!(ContentStore::unreferenced(&h, &["other".to_string()]));
    assert!(!ContentStore::unreferenced("../x", &[]));
}

fn info(up: Option<i64>, down: Option<i64>, total: Option<i64>) -> SubscriptionUserInfo {
    SubscriptionUserInfo { upload: up, download: down, total, expire_unix: Some(1_700_000_000) }
}

#[test]
fn stored_profiles_are_read() {
    let mut s = ProfileStore::new();
    s.add_local(Some("local: #1"), b"one");
    s.add_cloud(Some("it's \"cloud\""), " https://h.example/s ", b"two", Some(&info(Some(3), Some(4), Some(100)))).unwrap();
    s.add_cloud(Some("plain"), "https://h.example/t", b"three", None).unwrap();
    s.set_default("it's \"cloud\"");
    let text = s.save();
    let mut back = ProfileStore::new();
    back.load_or_migrate(&ConfigFile::Text(text.clone()));
    assert_eq!(back.save(), text);
    assert_eq!(back.profiles().len(), 3);
    let p = back.active().unwrap();
    assert_eq!(p.name, "it's \"cloud\"");
    assert_eq!(p.kind, ProfileKind::Cloud);
    assert_eq!(p.url.as_deref(), Some("https://h.example/s"));
    assert_eq!((p.used_bytes, p.total_bytes, p.expire_unix), (Some(7), Some(100), Some(1_700_000_000)));
    back.load_or_migrate(&ConfigFile::Unreadable);
    assert_eq!(back.load_error.as_deref(), Some("配置读取失败"));
    assert!(back.profiles().is_empty());
    back.load_or_migrate(&ConfigFile::Missing);
    assert_eq!(back.load_error, None);
}

#[test]
fn names_of_profiles_stay_distinct() {
    let mut s = ProfileStore::new();
    assert_eq!(s.add_local(None, b"a").name, "Proxy");
    assert_eq!(s.add_local(Some(" "), b"b").name, "Proxy#1");
    assert_eq!(s.add_local(Some("Proxy"), b"c").name, "Proxy#2");
    assert_eq!(s.default_name(), Some("Proxy#2"));
    assert_eq!(s.add_cloud(None, "  ", b"d", None).err().as_deref(), Some("订阅地址不能为空"));
    assert_eq!(s.update_cloud("none", b"x", None), Err("not found".to_string()));
    assert_eq!(s.update_cloud("Proxy", b"x", None), Err("本地订阅不支持更新".to_string()));
    let cloud = s.add_cloud(Some("c"), "https://x", b"e", None).unwrap();
    assert_eq!(s.update_cloud("c", b"f", Some(&info(Some(1), None, None))), Ok(()));
    assert_ne!(s.active().unwrap().hash, cloud.hash);
    assert_eq!(s.active().unwrap().used_bytes, Some(1));
    assert!(s.references().contains(&ContentStore::sha256_hex(b"f")));
    let names = |s: &ProfileStore| -> Vec<bool> {
        ["Proxy", "Proxy#1", "Proxy#2", "c"].iter().map(|n| s.name_exists(n)).collect()
    };
    assert_eq!(names(&s), [true, true, true, true]);
    assert!(s.remove("c"));
    assert_eq!(names(&s), [true, true, true, false]);
    assert!(!s.remove("c"));
    assert_eq!(s.default_name(), Some("Proxy"));
    assert!(s.remove("Proxy#1"));
    assert_eq!(s.default_name(), Some("Proxy"));
    assert!(s.remove("Proxy") && s.remove("Proxy#2"));
    assert_eq!(s.default_name(), None);
    assert!(s.active().is_none());
}
