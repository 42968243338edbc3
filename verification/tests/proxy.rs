use rust_clash::inbound::{
    forward_target, plan_request, read_http_request, rewrite_forward, way_of, HttpRequest,
    ListenAction, Plan, ProxyService, ReadStep, Tunnel, TunnelAction, TunnelEvent, Way,
};
use rust_clash::rules::RuleAction;
use rust_clash::sysproxy::{
    apply_commands, build_connection_blob, currently_ours, gnome_argument, gnome_commands,
    gnome_is_ours, gnome_own, gnome_snapshot, gnome_value, load_gnome, load_services,
    parse_proxy_state, parse_services, restore_service, restore_undo, save_undo, stolen_msg,
    write_gnome, write_services, ProxyState, ProxySwitch, ServiceSnap, SwitchAction, SwitchEvent,
};

fn request(raw: &[u8]) -> HttpRequest {
    match read_http_request(raw) {
        ReadStep::Request(r) => r,
        other => panic!("{other:?}"),
    }
}

#[test]
fn requests_are_read_when_their_head_is_whole() {
    let raw = b"GET http://a.example/ HTTP/1.1\r\nHost: a.example\r\nCookie: a=1\r\nX-Y:  z \r\ncookie: b=2\r\nbroken\r\n\r\nbody";
    for n in 0..raw.len() - 4 {
        assert!(matches!(read_http_request(&raw[..n]), ReadStep::More), "{n}");
    }
    let r = request(raw);
    assert_eq!((r.method.as_str(), r.target.as_str()), ("GET", "http://a.example/"));
    assert_eq!(
        r.headers,
        vec![
            ("Host".to_string(), "a.example".to_string()),
            ("Cookie".to_string(), "a=1; b=2".to_string()),
            ("X-Y".to_string(), "z".to_string()),
        ]
    );
    assert_eq!(r.leftover, b"body");
    assert!(matches!(read_http_request(b"GET\r\n\r\n"), ReadStep::Bad(m) if m == "bad request line"));
    let long = vec![b'a'; 65537];
    assert!(matches!(read_http_request(&long), ReadStep::Bad(m) if m == "headers too large"));
}

#[test]
fn requests_are_planned() {
    let plan = |raw: &[u8]| plan_request(&request(raw));
    assert!(matches!(
        plan(b"CONNECT a.example HTTP/1.1\r\n\r\n"),
        Plan::Tunnel { host_port } if host_port == "a.example:443"
    ));
    assert!(matches!(
        plan(b"connect [::1]:8443 HTTP/1.1\r\n\r\n"),
        Plan::Tunnel { host_port } if host_port == "[::1]:8443"
    ));
    assert!(matches!(
        plan(b"GET https://a.example/ HTTP/1.1\r\n\r\n"),
        Plan::Refuse(400, "HTTPS requires CONNECT")
    ));
    assert!(matches!(plan(b"GET / HTTP/1.1\r\n\r\n"), Plan::Refuse(400, "Invalid host")));
    match plan(b"GET http://a.example:8080/p?q=1 HTTP/1.1\r\n\r\n") {
        Plan::Forward { host_port, host, path } => {
            assert_eq!(host_port, "a.example:8080");
            assert_eq!(host, "a.example:8080");
            assert_eq!(path, "/p?q=1");
        }
        other => panic!("{other:?}"),
    }
    match plan(b"GET index.html HTTP/1.1\r\nHost: b.example\r\n\r\n") {
        Plan::Forward { host_port, path, .. } => {
            assert_eq!(host_port, "b.example:80");
            assert_eq!(path, "/index.html");
        }
        other => panic!("{other:?}"),
    }
    assert_eq!(forward_target("http://", &[]), None);
}

#[test]
fn hop_headers_are_dropped() {
    let h = |k: &str| (k.to_string(), "v".to_string());
    let headers = [
        h("Host"), h("CONNECTION"), h("Keep-Alive"), h("Proxy-Authenticate"),
        h("Proxy-Authorization"), h("TE"), h("Trailer"), h("Trailers"), h("Transfer-Encoding"),
        h("Upgrade"), h("Proxy-Connection"), h("Accept"),
    ];
    let out = rewrite_forward("GET", "/p", "a.example", &headers, b"rest");
    assert_eq!(
        String::from_utf8(out).unwrap(),
        "GET /p HTTP/1.1\r\nHost: a.example\r\nAccept: v\r\nConnection: close\r\n\r\nrest"
    );
}

#[test]
fn rules_choose_the_way() {
    assert_eq!(way_of(RuleAction::Direct), Ok(Way::Direct));
    assert_eq!(way_of(RuleAction::Proxy), Ok(Way::Proxy));
    assert_eq!(way_of(RuleAction::Reject), Err((403, "Forbidden by rules")));
}

#[test]
fn tunnels_keep_what_comes_early() {
    let mut t = Tunnel::begin(b"he".to_vec()).unwrap();
    assert!(matches!(t.step(TunnelEvent::ClientData(b"llo".to_vec())), TunnelAction::Wait));
    assert!(matches!(t.step(TunnelEvent::Dialled), TunnelAction::Open));
    assert_eq!(t.early, b"hello");
    assert!(matches!(t.step(TunnelEvent::Aborted), TunnelAction::End));
    assert!(matches!(t.step(TunnelEvent::ClientClosed), TunnelAction::End));
    assert!(matches!(t.step(TunnelEvent::ClientFailed), TunnelAction::Fail));
    assert!(matches!(
        t.step(TunnelEvent::DialFailed),
        TunnelAction::Refuse(503, "Failed to reach destination")
    ));
    let too_much = (400u16, "CONNECT early buffer limit exceeded");
    assert_eq!(Tunnel::begin(vec![0; 262145]).unwrap_err(), too_much);
    let mut t = Tunnel::begin(vec![0; 262144]).unwrap();
    assert!(matches!(
        t.step(TunnelEvent::ClientData(vec![1])),
        TunnelAction::Refuse(400, "CONNECT early buffer limit exceeded")
    ));
}

#[test]
fn the_service_has_so_many_slots() {
    let mut s = ProxyService::new();
    assert_eq!(s.set_listening(true), ListenAction::Bind);
    s.bound();
    assert_eq!(s.set_listening(true), ListenAction::Nothing);
    for _ in 0..256 {
        assert_eq!(s.take_slot(), Ok(()));
    }
    assert_eq!(s.take_slot(), Err((503, "Too many connections")));
    s.leave();
    assert_eq!(s.take_slot(), Ok(()));
    assert_eq!(s.set_listening(false), ListenAction::Stop);
    s.set_system_proxy(true, Err("no".into()));
    assert!(!s.system_proxy_on());
    assert_eq!(s.last_error(), Some("no"));
    s.set_system_proxy(true, Ok(()));
    assert!(s.system_proxy_on());
    assert_eq!(s.last_error(), None);
}

#[test]
fn former_values_read_back() {
    for (enable, server, bypass) in [
        (0u32, "", ""),
        (1, "10.0.0.1:8080", "localhost;<local>"),
        (u32::MAX, "a\"b\\c\u{1}\u{4e2d}", "\n\t"),
    ] {
        let kept = save_undo(enable, server, bypass);
        let v = restore_undo(&kept).unwrap();
        assert_eq!((v.enable, v.server.as_str(), v.bypass.as_str()), (enable, server, bypass));
    }
    assert_eq!(save_undo(1, "a", "b"), r#"{"enable":1,"server":"a","override":"b"}"#);
    assert!(restore_undo("{").is_none());
    let v = restore_undo("{}").unwrap();
    assert_eq!((v.enable, v.server.as_str(), v.bypass.as_str()), (0, "", ""));
}

#[test]
fn settings_of_others_are_told() {
    assert!(currently_ours(Some(1), Some("http=127.0.0.1:7887")));
    assert!(!currently_ours(Some(0), Some("127.0.0.1:7887")));
    assert!(!currently_ours(Some(1), Some("127.0.0.1:7890")));
    assert!(!currently_ours(Some(1), None));
    assert!(!currently_ours(None, Some("127.0.0.1:7887")));
    assert_eq!(
        stolen_msg(1, "127.0.0.1:7890"),
        "系统代理被 Clash Party 覆盖. 请先退出 Clash Party, 再开代理模式."
    );
    assert_eq!(stolen_msg(1, "x:1"), "系统代理被其他程序覆盖 (enable=1 server=x:1)");
}

#[test]
fn connection_settings_follow_each_other() {
    let a = build_connection_blob(false, "", "", None);
    assert_eq!(&a[..16], &[0x47, 0, 0, 0, 1, 0, 0, 0, 1, 0, 0, 0, 0, 0, 0, 0]);
    assert_eq!(a.len(), 56);
    let b = build_connection_blob(true, "s:1", "b", Some(&a));
    assert_eq!(&b[4..8], &[2, 0, 0, 0]);
    assert_eq!(&b[16..19], b"s:1");
    assert_eq!(&b[19..24], &[1, 0, 0, 0, b'b']);
    let mut odd = a.clone();
    odd[0] = 0x99;
    odd[4..8].copy_from_slice(&[0xff; 4]);
    let c = build_connection_blob(true, "", "", Some(&odd));
    assert_eq!(&c[..8], &[0x47, 0, 0, 0, 0, 0, 0, 0]);
}

#[test]
fn the_switch_comes_to_an_end() {
    let mut s = ProxySwitch::new();
    assert_eq!(s.step(SwitchEvent::TurnOn), SwitchAction::SaveAndApply);
    assert_eq!(s.step(SwitchEvent::Done), SwitchAction::Commit);
    assert_eq!(s.step(SwitchEvent::Done), SwitchAction::CheckLater);
    assert_eq!(s.step(SwitchEvent::Ours(false)), SwitchAction::Commit);
    assert_eq!(s.step(SwitchEvent::Done), SwitchAction::Check);
    assert_eq!(s.step(SwitchEvent::Ours(true)), SwitchAction::Finish);
    assert!(s.applied && s.keepalive);
    assert!(s.rewrites(false) && !s.rewrites(true));
    assert_eq!(s.step(SwitchEvent::TurnOn), SwitchAction::Commit);
    assert_eq!(s.step(SwitchEvent::Failed), SwitchAction::Fail);
    assert_eq!(s.step(SwitchEvent::TurnOff), SwitchAction::Restore);
    assert_eq!(s.step(SwitchEvent::Done), SwitchAction::Check);
    assert_eq!(s.step(SwitchEvent::Ours(true)), SwitchAction::ApplyOff);
    assert_eq!(s.step(SwitchEvent::Done), SwitchAction::Notify);
    assert!(!s.applied && !s.keepalive);
    assert_eq!(s.step(SwitchEvent::Recover), SwitchAction::Check);
    assert_eq!(s.step(SwitchEvent::Ours(false)), SwitchAction::RemoveUndo);
    assert_eq!(s.step(SwitchEvent::Done), SwitchAction::Ignore);
    assert_eq!(s.step(SwitchEvent::TurnOn), SwitchAction::SaveAndApply);
    assert_eq!(s.step(SwitchEvent::Done), SwitchAction::Commit);
    assert_eq!(s.step(SwitchEvent::Done), SwitchAction::CheckLater);
    assert_eq!(s.step(SwitchEvent::Ours(true)), SwitchAction::Check);
    assert_eq!(s.step(SwitchEvent::Ours(false)), SwitchAction::Stolen);
}

fn state(enabled: bool, server: &str, port: i32) -> ProxyState {
    ProxyState { enabled, server: server.into(), port }
}

#[test]
fn network_services_read_back() {
    let listing = "An asterisk (*) denotes that a network service is disabled.\nWi-Fi\n* Old\n\n Thunderbolt Bridge \n";
    assert_eq!(parse_services(listing), ["Wi-Fi", "Thunderbolt Bridge"]);
    let st = parse_proxy_state("Enabled: Yes\nServer: 10.0.0.1\nPort: 8080\nAuthenticated Proxy Enabled: 0\n");
    assert_eq!((st.enabled, st.server.as_str(), st.port), (true, "10.0.0.1", 8080));
    assert!(!st.is_ours());
    assert!(parse_proxy_state("Enabled: 1\nServer: 127.0.0.1\nPort: 7887").is_ours());
    assert_eq!(parse_proxy_state("Port: x").port, 0);
    let states = [state(true, "10.0.0.1", 7887), state(false, "127.0.0.1", 7887)];
    assert!(!ProxyState::any_ours(&states));
    assert!(ProxyState::any_ours(&[state(false, "", 0), state(true, "127.0.0.1", 7887)]));
    assert!(!ProxyState::any_ours(&[]));
    let snaps = vec![
        ServiceSnap { name: "Wi-Fi".into(), web: state(true, "10.0.0.1", 8080), secure: state(false, "", 0) },
        ServiceSnap { name: "LAN 2".into(), web: state(false, "h", -1), secure: state(true, "::1", 1) },
    ];
    let kept = write_services(&snaps);
    assert_eq!(kept, "Wi-Fi\ttrue\t10.0.0.1\t8080\tfalse\t\t0\nLAN 2\tfalse\th\t-1\ttrue\t::1\t1\n");
    let back = load_services(&kept);
    assert_eq!(write_services(&back), kept);
    assert_eq!(load_services("a\tb\n").len(), 0);
    assert_eq!(
        restore_service(&snaps[0]),
        vec![
            vec!["-setwebproxy", "Wi-Fi", "10.0.0.1", "8080"],
            vec!["-setwebproxystate", "Wi-Fi", "on"],
            vec!["-setsecurewebproxystate", "Wi-Fi", "off"],
        ]
    );
    assert_eq!(apply_commands("Wi-Fi")[0], ["-setwebproxy", "Wi-Fi", "127.0.0.1", "7887"]);
    assert_eq!(apply_commands("Wi-Fi")[3], ["-setsecurewebproxystate", "Wi-Fi", "on"]);
}

#[test]
fn gnome_settings_read_back() {
    assert_eq!(gnome_value(" 'manual'\n"), "manual");
    assert_eq!(gnome_value("8080\n"), "8080");
    assert_eq!(gnome_value("'"), "'");
    assert_eq!(gnome_argument("true"), "true");
    assert_eq!(gnome_argument("-12"), "-12");
    assert_eq!(gnome_argument("it's \\"), "'it\\'s \\\\'");
    let s = gnome_snapshot(None, None, Some("h".into()), None, None, None, Some("9".into()));
    let kept = write_gnome(&s);
    assert_eq!(kept, "none\ttrue\th\t0\tfalse\t\t9");
    let back = load_gnome(&kept).unwrap();
    assert_eq!(write_gnome(&back), kept);
    assert!(load_gnome("a\tb").is_none());
    let commands = gnome_commands(&back);
    assert_eq!(commands.len(), 7);
    assert_eq!(commands[0], ["set", "org.gnome.system.proxy", "mode", "'none'"]);
    assert_eq!(commands[6], ["set", "org.gnome.system.proxy.https", "port", "9"]);
    assert_eq!(gnome_commands(&gnome_own())[4], ["set", "org.gnome.system.proxy.http", "port", "7887"]);
    assert!(gnome_is_ours("manual", "127.0.0.1", " 7887 "));
    assert!(!gnome_is_ours("none", "127.0.0.1", "7887"));
    assert!(!gnome_is_ours("manual", "127.0.0.1", "78870"));
}
