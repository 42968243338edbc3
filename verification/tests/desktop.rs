use rust_clash::calendar::{civil_from_unix, format_expire};
use rust_clash::config::node::ProxyNode;
use rust_clash::config::profiles::ProfileStore;
use rust_clash::ip::Ip;
use rust_clash::net::{InterfaceBinder, PhysicalEndpoint};
use rust_clash::outbound::{
    destination, first_ipv4, host_query, to_trojan, to_vless, HealthCheckResult, HealthChecker,
    HealthStatus, HostQuery, OutboundDialer,
};
use rust_clash::panel::{
    check_local, check_url, find_saved_node, health_rank, latency_color, protocol_text,
    refresh_quota, sort_nodes, speed_text, tries_again, typed_or, update_source, EnhanceBegin,
    EnhanceToggle, NodeVm, Panel, Restore,
};
use rust_clash::paths::{dirs_appdata, path_starts_with, AppPaths, Root, System};
use rust_clash::proxynet::options::VlessSecurity;
use rust_clash::relay::{
    attempt_delay, sort_four_first, DirectDial, HalfAction, HalfEvent, HelloStep, Race, RaceState,
    Relay, Target, TlsHelloCoalesce, TrafficCounters,
};
use rust_clash::theme::{dark_themes, light_themes, Palette};
use rust_clash::tray::{
    env_text, handle_command, profile_items, show_menu, MenuEntry, TrayEvent, TrayMenuState,
    ID_PROFILE_BASE, ID_PROXY, ID_QUIT,
};
use rust_clash::ui_state::{LaunchFlags, SavedNode, UiMode, UiState};
use rust_clash::wide::{copy_tip, wide};

fn node(name: &str, port: u16) -> ProxyNode {
    ProxyNode {
        name: name.into(),
        kind: "vless".into(),
        server: "a.example".into(),
        port,
        uuid: Some("11111111-1111-1111-1111-111111111111".into()),
        network: "tcp".into(),
        ..Default::default()
    }
}

fn vm(name: &str, health: HealthStatus, ms: Option<i32>) -> NodeVm {
    NodeVm { node: node(name, 443), latency: "-".into(), health, latency_ms: ms }
}

#[test]
fn dates_of_times() {
    assert_eq!(civil_from_unix(0), (1970, 1, 1));
    assert_eq!(civil_from_unix(-1), (1969, 12, 31));
    assert_eq!(civil_from_unix(951_782_400), (2000, 2, 29));
    assert_eq!(civil_from_unix(1_709_164_800), (2024, 2, 29));
    assert_eq!(civil_from_unix(1_735_689_599), (2024, 12, 31));
    assert_eq!(civil_from_unix(4_107_542_400), (2100, 3, 1));
    assert_eq!(format_expire(Some(1_709_164_800)), "到期 2024-02-29");
    assert_eq!(format_expire(None), "到期 -");
    assert_eq!(format_expire(Some(0)), "到期 -");
    assert_eq!(format_expire(Some(-5)), "到期 -");
}

#[test]
fn dates_follow_each_other() {
    let mut last = civil_from_unix(-86400 * 800);
    for day in -799..800i64 {
        let d = civil_from_unix(day * 86400 + 7);
        assert!(last < d, "{last:?} {d:?}");
        last = d;
    }
}

#[test]
fn nodes_are_sorted_by_their_time() {
    let sorted = sort_nodes(vec![
        vm("idle", HealthStatus::Idle, None),
        vm("slow", HealthStatus::Slow, Some(900)),
        vm("failed", HealthStatus::LatencyFailed, None),
        vm("fast", HealthStatus::Good, Some(20)),
        vm("also fast", HealthStatus::Good, Some(20)),
    ]);
    let names: Vec<&str> = sorted.iter().map(|n| n.node.name.as_str()).collect();
    assert_eq!(names, ["fast", "also fast", "slow", "failed", "idle"]);
    for pair in sorted.windows(2) {
        assert!(health_rank(&pair[0]) <= health_rank(&pair[1]));
    }
    assert_eq!(health_rank(&vm("n", HealthStatus::Good, None)), (1, i32::MAX));
    assert_eq!(latency_color(HealthStatus::Good, 7), 0x16a34a);
    assert_eq!(latency_color(HealthStatus::Slow, 7), 0xca8a04);
    assert_eq!(latency_color(HealthStatus::LatencyFailed, 7), 0xdc2626);
    assert_eq!(latency_color(HealthStatus::Idle, 7), 7);
}

#[test]
fn the_choice_survives_a_reload() {
    let mut p = Panel::new();
    p.reload_nodes(vec![node("a", 1), node("b", 2), node("c", 3)]);
    assert_eq!(p.selected, Some(0));
    assert!(p.select_node(1));
    p.node_changed(true);
    p.reload_nodes(vec![node("c", 3), node("x", 9), node("b", 2)]);
    assert_eq!(p.selected, Some(2));
    assert_eq!(p.current().unwrap().name, "b");
    let kept = p.persist();
    assert_eq!(kept.mode, UiMode::Off);
    assert_eq!(kept.node.as_ref().unwrap().port, 2);
    let mut q = Panel::new();
    q.reload_nodes(vec![node("a", 1), node("b", 2)]);
    q.apply_saved_node(&kept);
    assert_eq!(q.selected, Some(1));
    // By its name alone where server or port changed.
    let moved = SavedNode { name: "b".into(), server: "other".into(), port: 5 };
    assert_eq!(find_saved_node(&q.nodes, &moved), Some(1));
    let gone = SavedNode { name: "z".into(), server: "a.example".into(), port: 1 };
    assert_eq!(find_saved_node(&q.nodes, &gone), None);
}

#[test]
fn the_modes_exclude_each_other() {
    let mut p = Panel::new();
    assert_eq!(p.toggle_enhance(true), EnhanceToggle::NoNodes);
    assert_eq!(p.error, "无可用节点, 已关闭增强模式");
    p.reload_nodes(vec![node("a", 1)]);
    assert_eq!(p.toggle_enhance(false), EnhanceToggle::Elevate);
    assert_eq!(p.toggle_enhance(true), EnhanceToggle::Start);
    assert_eq!(p.begin_enhance(false), EnhanceBegin::Go);
    assert_eq!(p.begin_enhance(false), EnhanceBegin::Busy);
    assert_eq!(p.end_enhance(false, None, false).mode, UiMode::Enhance);
    assert!(p.enhance_on && !p.proxy_on);
    let t = p.toggle_proxy();
    assert!(t.on && t.stop_enhance);
    p.proxy_switched(true, None);
    assert!(p.proxy_on && !p.enhance_on);
    assert_eq!(p.persist().mode, UiMode::Proxy);
    p.proxy_switched(true, Some("stolen".into()));
    assert!(!p.proxy_on);
    assert_eq!(p.error, "stolen");
    assert_eq!(p.begin_enhance(true), EnhanceBegin::Running);
    p.stop_enhance();
    assert!(!p.enhance_on);
}

#[test]
fn a_failed_start_keeps_the_intent_if_asked() {
    let mut p = Panel::new();
    p.reload_nodes(vec![node("a", 1)]);
    assert_eq!(p.restore_mode(UiMode::Enhance, true, true), Restore::Enhance);
    assert_eq!(p.restore_mode(UiMode::Enhance, false, true), Restore::Nothing);
    assert_eq!(p.restore_mode(UiMode::Enhance, true, false), Restore::Nothing);
    assert_eq!(p.restore_mode(UiMode::Off, true, true), Restore::Nothing);
    assert_eq!(p.restore_mode(UiMode::Proxy, false, false), Restore::Proxy);
    p.begin_enhance(false);
    assert_eq!(p.end_enhance(true, Some("no driver".into()), true).mode, UiMode::Enhance);
    assert_eq!(p.error, "no driver");
    assert!(!p.enhance_on && !p.enhance_busy);
    p.begin_enhance(false);
    assert_eq!(p.end_enhance(true, None, false).mode, UiMode::Off);
    assert_eq!(p.error, "enhance failed");
    assert!(tries_again(0, 6) && tries_again(4, 6) && !tries_again(5, 6) && !tries_again(0, 0));
}

#[test]
fn health_results_reach_their_node() {
    let mut p = Panel::new();
    p.reload_nodes(vec![node("a", 1), node("b", 2)]);
    assert_eq!(p.toggle_health(), Some(2));
    p.apply_health_result("b", "a.example", 2, HealthChecker::judge(Some(120)));
    p.apply_health_result("a", "a.example", 1, HealthChecker::judge(None));
    p.sort_health_partial();
    assert_eq!(p.nodes[0].node.name, "b");
    assert_eq!(p.nodes[0].latency, "120ms");
    assert_eq!(p.nodes[1].latency, "timeout");
    assert_eq!(p.current().unwrap().name, "a");
    assert_eq!(p.toggle_health(), None);
    let r: HealthCheckResult = HealthChecker::judge(Some(400));
    assert_eq!((r.latency_ok, r.latency_ms, r.status), (true, Some(400), HealthStatus::Slow));
    assert_eq!(HealthChecker::judge(Some(399)).status, HealthStatus::Good);
    assert_eq!(HealthChecker::judge(None).status, HealthStatus::LatencyFailed);
    assert!(HealthChecker::is_no_content(b"HTTP/1.1 204 No Content\r\n\r\n"));
    assert!(!HealthChecker::is_no_content(b"HTTP/1.1 200 OK\r\nX: 204\r\n"));
    assert!(!HealthChecker::is_no_content(b""));
}

#[test]
fn texts_of_the_panel() {
    assert_eq!(speed_text(12), "传输速度 12 KB/s");
    let mut n = node("a", 1);
    assert_eq!(protocol_text(&n), "vless");
    n.client_fingerprint = Some("chrome".into());
    assert_eq!(protocol_text(&n), "vless (fp 未生效)");
    assert_eq!(check_url("  "), Err("请输入订阅地址".to_string()));
    assert_eq!(check_url("ftp://x"), Err("订阅地址仅支持 http/https".to_string()));
    assert_eq!(check_url(" https://x "), Ok("https://x".to_string()));
    assert_eq!(check_local(" ", Some(1)).as_deref(), Some("请选择有效的本地文件"));
    assert_eq!(check_local("a", None).as_deref(), Some("请选择有效的本地文件"));
    assert_eq!(check_local("a", Some(16 * 1024 * 1024 + 1)).as_deref(), Some("本地文件超过 16 MB"));
    assert_eq!(check_local("a", Some(16 * 1024 * 1024)), None);
    assert_eq!(typed_or(" n ", Some("s")).as_deref(), Some("n"));
    assert_eq!(typed_or("  ", Some("s")).as_deref(), Some("s"));
    assert_eq!(typed_or("  ", None), None);
}

#[test]
fn menu_entries_choose_profiles() {
    let state = TrayMenuState {
        proxy_on: false,
        enhance_on: false,
        enhance_ok: true,
        profiles: vec!["one".into(), "two".into()],
        active_profile: Some("two".into()),
    };
    let items = profile_items(&state);
    assert_eq!(items.len(), 2);
    assert!(!items[0].checked && items[1].checked);
    assert_eq!(items[1].id, ID_PROFILE_BASE + 1);
    match handle_command(items[1].id, &state) {
        Some(TrayEvent::SwitchProfile(n)) => assert_eq!(n, "two"),
        other => panic!("{other:?}"),
    }
    assert!(handle_command(ID_PROFILE_BASE + 2, &state).is_none());
    assert!(matches!(handle_command(ID_PROXY, &state), Some(TrayEvent::ToggleProxy)));
    assert!(matches!(handle_command(ID_QUIT, &state), Some(TrayEvent::Quit)));
    assert_eq!(
        env_text(),
        "set http_proxy=http://127.0.0.1:7887\r\nset https_proxy=http://127.0.0.1:7887\r\nset ALL_PROXY=http://127.0.0.1:7887"
    );
}

#[test]
fn places_of_files() {
    let p = AppPaths::ui_state_file();
    assert_eq!(p.root, Root::AppData);
    assert_eq!(p.parts, ["ArrorMeo", "NanoClash", "ui-state.json"]);
    assert_eq!(AppPaths::rules_bin_sidecar().parts, ["Rules.bin"]);
    assert_eq!(AppPaths::rules_bin_sidecar().root, Root::Program);
    assert_eq!(dirs_appdata(System::Windows, Some("C:\\A"), None, None), ["C:\\A"]);
    assert_eq!(dirs_appdata(System::Windows, None, None, Some("/h")), ["."]);
    assert_eq!(
        dirs_appdata(System::Mac, None, None, Some("/h")),
        ["/h", "Library", "Application Support"]
    );
    assert_eq!(dirs_appdata(System::Other, None, Some("/x"), Some("/h")), ["/x"]);
    assert_eq!(dirs_appdata(System::Other, None, None, None), [".", ".config"]);
    let v = |s: &[&str]| s.iter().map(|x| x.to_string()).collect::<Vec<_>>();
    assert!(path_starts_with(&v(&["/", "a", "b"]), &v(&["/", "a"])));
    assert!(path_starts_with(&v(&["/", "a"]), &v(&["/", "a"])));
    assert!(!path_starts_with(&v(&["/", "ab"]), &v(&["/", "a"])));
    assert!(!path_starts_with(&v(&["/"]), &v(&["/", "a"])));
}

#[test]
fn relaunch_arguments_read_back() {
    for pid in [0u32, 7, 4242, u32::MAX] {
        let args = LaunchFlags::elevate_relaunch_args(pid);
        let words: Vec<&str> = args.split(' ').collect();
        let f = LaunchFlags::from_args(&words);
        assert!(f.start_enhance);
        assert_eq!(f.wait_pid, Some(pid));
    }
    assert_eq!(LaunchFlags::from_args(&["--wait-pid=x"]).wait_pid, None);
    let kept = UiState { mode: UiMode::Proxy, node: None };
    assert_eq!(UiState::load(Some(kept)).mode, UiMode::Proxy);
    let plain = LaunchFlags::from_args(&[]);
    let flagged = LaunchFlags::from_args(&["--start-enhance"]);
    let kept = || UiState { mode: UiMode::Proxy, node: None };
    assert_eq!(kept().launched(&plain).mode, UiMode::Proxy);
    assert_eq!(kept().launched(&flagged).mode, UiMode::Enhance);
    assert!(kept().launched(&flagged).needs_elevation(true, false));
    assert!(!kept().launched(&flagged).needs_elevation(true, true));
    assert!(!kept().launched(&flagged).needs_elevation(false, false));
    assert!(!kept().launched(&plain).needs_elevation(true, false));
}

#[test]
fn a_relay_closes_what_it_writes_to() {
    assert_eq!(Relay::half_step(HalfEvent::Data), HalfAction::Write);
    assert_eq!(Relay::half_step(HalfEvent::Written), HalfAction::Read);
    assert_eq!(Relay::half_step(HalfEvent::Eof), HalfAction::Close { stop: false });
    assert_eq!(Relay::half_step(HalfEvent::Stopped), HalfAction::Close { stop: false });
    assert_eq!(Relay::half_step(HalfEvent::ReadFailed), HalfAction::Close { stop: true });
    assert_eq!(Relay::half_step(HalfEvent::WriteFailed), HalfAction::Abort);
    assert!(!Relay::is_idle(600_000, 1));
    assert!(Relay::is_idle(600_001, 1));
    assert!(!Relay::is_idle(0, 1));
    let (head, body) = Relay::http_error(403, "Forbidden by rules");
    assert_eq!(body, "Forbidden by rules\n");
    assert_eq!(
        head,
        "HTTP/1.1 403 Forbidden\r\nContent-Type: text/plain; charset=utf-8\r\nContent-Length: 19\r\nConnection: close\r\n\r\n"
    );
    assert!(Relay::http_error(418, "x").0.starts_with("HTTP/1.1 418 Error\r\n"));
}

#[test]
fn saved_states_are_read_back() {
    let node = |name: &str, port: u16| {
        Some(SavedNode { name: name.into(), server: "s.example".into(), port })
    };
    let states = [
        (UiMode::Off, None),
        (UiMode::Proxy, None),
        (UiMode::Proxy, node("a \"quoted\" \\ name\n", 0)),
        (UiMode::Enhance, node("香港 \u{1}", 65535)),
    ];
    for (mode, node) in states {
        let s = UiState { mode, node };
        assert_eq!(UiState::read_saved(&s.save()).as_ref(), Some(&s));
        let other = UiState { mode: UiMode::Off, node: None };
        assert_eq!(UiState::load_from(Some(&s.save()), Some(other)), s);
    }
    let s = UiState { mode: UiMode::Enhance, node: node("hk", 443) };
    assert_eq!(
        s.save(),
        "{\"mode\":\"enhance\",\"node\":{\"name\":\"hk\",\"server\":\"s.example\",\"port\":443}}"
    );
    assert_eq!(UiState::default().save(), "{\"mode\":\"off\",\"node\":null}");
    // What another hand wrote is left to what was made of it.
    for text in ["{}", "{\"mode\": \"proxy\", \"node\": null}", "{\"mode\":\"x\",\"node\":null}", "[]", "{"] {
        assert_eq!(UiState::read_saved(text), None);
        let made = UiState { mode: UiMode::Proxy, node: None };
        assert_eq!(UiState::load_from(Some(text), Some(made)).mode, UiMode::Proxy);
        assert_eq!(UiState::load_from(Some(text), None), UiState::default());
    }
}

#[test]
fn speeds_are_measured_since_the_last_time() {
    let mut t = TrafficCounters::new();
    t.add_upload(3_000_000);
    t.add_download(1_000_000);
    assert_eq!(t.snapshot_total_kbps(2000), 1500 + 500);
    assert_eq!(t.snapshot_total_kbps(3000), 0);
    assert_eq!((t.upload, t.download), (3_000_000, 1_000_000));
    t.add_upload(1999);
    assert_eq!(t.snapshot_total_kbps(3000), 1999);
    // A counter that has wrapped is below zero.
    t.win_up = -2_500_000;
    t.win_down = 600_000;
    assert_eq!(t.snapshot_total_kbps(4000), -2500 + 600);
    t.win_up = -1_999;
    assert_eq!(t.snapshot_total_kbps(5000), -1);
}

#[test]
fn targets_without_a_proxy() {
    assert!(matches!(DirectDial::target("1.2.3.4:80"), Ok(Target::Address(Ip::V4([1, 2, 3, 4]), 80))));
    assert!(matches!(DirectDial::target("[::1]:80"), Ok(Target::Address(Ip::V6(_), 80))));
    assert!(matches!(DirectDial::target("h.example:1"), Ok(Target::Name(n, 1)) if n == "h.example"));
    assert_eq!(DirectDial::target("host").unwrap_err(), "invalid host:port");
    assert_eq!(DirectDial::target("host:99999").unwrap_err(), "invalid port");
    let mixed = [Ip::V6([1; 16]), Ip::V4([1; 4]), Ip::V6([2; 16]), Ip::V4([2; 4])];
    assert_eq!(
        sort_four_first(&mixed),
        vec![Ip::V4([1; 4]), Ip::V4([2; 4]), Ip::V6([1; 16]), Ip::V6([2; 16])]
    );
    assert_eq!(attempt_delay(0), 0);
    assert_eq!(attempt_delay(3), 750);
    let mut r = Race::new(2);
    assert!(matches!(r.ended(Some("a".into())), RaceState::Open));
    assert!(matches!(r.ended(Some("b".into())), RaceState::Lost(e) if e == "b"));
    assert!(matches!(Race::new(1).ended(None), RaceState::Won));
}

#[test]
fn first_records_are_collected() {
    let mut hello = vec![0x16, 3, 1, 0, 10];
    hello.extend([7u8; 6]);
    let mut c = TlsHelloCoalesce::new(&hello);
    assert_eq!(c.step(false), HelloStep::Read);
    assert_eq!(c.step(true), HelloStep::Flush { len: 11, fits: true });
    c.push(&[7; 9]);
    assert_eq!(c.step(false), HelloStep::Flush { len: 15, fits: true });
    assert_eq!(
        TlsHelloCoalesce::new(b"GET /").step(false),
        HelloStep::Flush { len: 5, fits: true }
    );
    assert_eq!(TlsHelloCoalesce::new(b"").step(true), HelloStep::Flush { len: 0, fits: false });
    let mut long = vec![0x16u8; 16384];
    long[3] = 0xff;
    assert_eq!(
        TlsHelloCoalesce::new(&long).step(false),
        HelloStep::Flush { len: 16384, fits: false }
    );
}

#[test]
fn nodes_become_options() {
    let mut n = node("a", 443);
    assert_eq!(to_vless(&n, "9.9.9.9").security, VlessSecurity::Plain);
    n.tls = true;
    n.network = String::new();
    let o = to_vless(&n, "9.9.9.9");
    assert_eq!(o.security, VlessSecurity::Tls);
    assert_eq!((o.host.as_str(), o.port, o.transport.as_str()), ("9.9.9.9", 443, "tcp"));
    n.reality_public_key = Some("key".into());
    assert_eq!(to_vless(&n, "9.9.9.9").security, VlessSecurity::Reality);
    n.password = Some("p".into());
    n.skip_cert_verify = true;
    let t = to_trojan(&n, "9.9.9.9");
    assert_eq!((t.password.as_str(), t.allow_insecure), ("p", true));
    assert_eq!(destination("h.example:443"), Some(("h.example".to_string(), 443)));
    assert_eq!(destination("[::1]:443"), Some(("::1".to_string(), 443)));
    assert_eq!(destination("h.example:x"), None);
    assert!(matches!(host_query(" 1.2.3.4. "), HostQuery::Address(Ip::V4([1, 2, 3, 4]))));
    assert!(matches!(host_query(" h.example. "), HostQuery::Name(n) if n == "h.example"));
    assert_eq!(first_ipv4(&[Ip::V6([1; 16]), Ip::V4([5; 4])]), Some([5; 4]));
    assert_eq!(first_ipv4(&[Ip::V6([1; 16])]), None);
    let mut d = OutboundDialer::new();
    assert!(d.current().is_none());
    d.set_current(Some(n));
    assert_eq!(d.current().unwrap().name, "a");
}

#[test]
fn sockets_are_bound_to_an_interface() {
    let mut b = InterfaceBinder::new();
    assert!(!b.is_bound());
    assert_eq!(b.local_address(true), None);
    b.set_physical(Some(PhysicalEndpoint {
        interface_index: 7,
        local_address: [10, 0, 0, 2],
        gateway: [10, 0, 0, 1],
        name: "eth".into(),
        dns_servers: vec![],
    }));
    assert!(b.is_bound());
    assert_eq!(b.unicast_if, 7);
    assert_eq!(b.current().unwrap().name, "eth");
    assert_eq!(b.local_address(true), Some([10, 0, 0, 2]));
    assert_eq!(b.local_address(false), None);
    b.clear();
    assert!(b.current().is_none());
    assert_eq!(b.unicast_if, 0);
    let many = vec![Ip::V6([1; 16]), Ip::V4([1; 4]), Ip::V4([2; 4]), Ip::V4([3; 4]), Ip::V4([4; 4])];
    assert_eq!(
        InterfaceBinder::happy_candidates(&many),
        vec![Ip::V4([1; 4]), Ip::V4([2; 4]), Ip::V4([3; 4]), Ip::V4([4; 4])]
    );
}

#[test]
fn themes_have_their_colours() {
    for t in dark_themes() {
        assert!(t.is_dark());
    }
    for t in light_themes() {
        assert!(!t.is_dark());
        assert!(Palette::of(t).bg > Palette::of(dark_themes()[0]).bg);
    }
    let p = Palette::of(dark_themes()[1]);
    assert_eq!((p.bg, p.fg, p.accent, p.proto), (0x282a36, 0xf8f8f2, 0xbd93f9, 0x6272a4));
}

#[test]
fn the_menu_of_the_tray() {
    let mut store = ProfileStore::new();
    store.add_local(Some("a&b"), b"1");
    store.add_local(Some("c"), b"2");
    store.set_default("a&b");
    let mut panel = Panel::new();
    panel.proxy_on = true;
    let state = panel.sync_tray(&store, false);
    assert_eq!(state.profiles, ["a&b", "c"]);
    assert_eq!(state.active_profile.as_deref(), Some("a&b"));
    let menu = show_menu(&state);
    assert_eq!(menu.len(), 11);
    match &menu[4] {
        MenuEntry::Popup(label, items) => {
            assert_eq!(label, "订阅配置");
            assert_eq!((items[0].label.as_str(), items[0].checked), ("a&&b", true));
            assert!(matches!(handle_command(items[1].id, &state), Some(TrayEvent::SwitchProfile(n)) if n == "c"));
        }
        other => panic!("{other:?}"),
    }
    let mut seen = Vec::new();
    for e in &menu {
        if let MenuEntry::Item(i) = e {
            let c = handle_command(i.id, &state);
            assert!(c.is_some());
            seen.push(format!("{c:?}"));
            if i.id == 1003 {
                assert!(!i.enabled && !i.checked);
            }
            if i.id == 1002 {
                assert!(i.enabled && i.checked);
            }
        }
    }
    let all = seen.len();
    seen.dedup();
    assert_eq!(seen.len(), all);
    assert!(handle_command(1000, &state).is_none() && handle_command(2002, &state).is_none());
    let empty = panel.sync_tray(&ProfileStore::new(), true);
    assert!(matches!(&show_menu(&empty)[4], MenuEntry::Popup(_, v) if v.len() == 1 && !v[0].enabled));
}

#[test]
fn the_row_of_switches() {
    let p = Palette::of(light_themes()[0]);
    let mut panel = Panel::new();
    let r = panel.row_modes(true, &p);
    assert_eq!((r.health, r.proxy.as_str(), r.enhance), ("健康检查", "关闭", "关闭"));
    assert_eq!((r.proxy_color, r.enhance_color), (p.danger, p.danger));
    panel.proxy_on = true;
    panel.enhance_on = true;
    panel.health_running = true;
    let r = panel.row_modes(true, &p);
    assert_eq!((r.health, r.proxy.as_str(), r.enhance), ("取消检查", "开启 127.0.0.1:7887", "开启"));
    assert!(r.enhance_knob && r.enhance_color == p.success);
    let r = panel.row_modes(false, &p);
    assert_eq!((r.enhance, r.enhance_color, r.enhance_knob), ("不可用", p.muted, false));
    assert!(!panel.routes_follow());
    panel.reload_nodes(vec![node("n", 1)]);
    assert!(panel.routes_follow());
}

#[test]
fn what_the_profile_in_use_tells() {
    let mut store = ProfileStore::new();
    assert_eq!(refresh_quota(store.active()), None);
    store.add_local(Some("l"), b"1");
    assert_eq!(refresh_quota(store.active()), None);
    assert_eq!(update_source(store.active()), None);
    store.add_cloud(Some("c"), "https://x", b"2", None).unwrap();
    assert_eq!(refresh_quota(store.active()), Some((None, None, None)));
    assert_eq!(update_source(store.active()), Some(("https://x".to_string(), "c".to_string())));
}

#[test]
fn texts_for_the_system() {
    assert_eq!(wide("a中\u{1f600}"), [0x61, 0x4e2d, 0xd83d, 0xde00, 0]);
    let mut buf = [9u16; 6];
    copy_tip(&mut buf, "ab");
    assert_eq!(buf, [0x61, 0x62, 0, 0, 9, 9]);
    let mut buf = [9u16; 3];
    copy_tip(&mut buf, "abcd");
    assert_eq!(buf, [0x61, 0x62, 0]);
    copy_tip(&mut [], "a");
}
