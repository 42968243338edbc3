use rust_clash::config::node::ProxyNode;
use rust_clash::dns::doh::DohBlocklist;
use rust_clash::dns::fake_ip::FakeIpPool;
use rust_clash::dns::message::{build_dns_query, parse_a_answers};
use rust_clash::ip::Ip;
use rust_clash::net::PhysicalEndpoint;
use rust_clash::rules::RuleDb;
use rust_clash::tun::packet::{
    build_udp, parse_ipv4, parse_tcp, parse_udp, set_addresses, set_tcp_ports, set_total_length,
    update_tcp_checksum, write_udp, UDP_HDR,
};
use rust_clash::tun::probe::{
    fake_dns_interface_names, parse_nic, preferred_local, probe, tun_client, tun_server, Nic, RawNic,
};
use rust_clash::tun::routes::{
    allow_firewall, merge_names, parse_fake_dns_names, recover, restore_fake_dns_nics, Command,
    InterfaceSetup, SetupAction, SetupEvent, TunRoutes,
};
use rust_clash::tun::service::{driver_is_stale, node_address, StartStep, TunService};
use rust_clash::tun::stack::{
    accept, direct_plan, handle_dns_tcp, is_global_unicast, is_tun_prefix, process_packet,
    receive_outcome, resolved_target, Accepted, DirectPlan, DnsTcp, Generation, Received,
};
use rust_clash::tun::tcp_nat::{Endpoint, TcpNat, FIRST_PORT};

#[test]
fn udp_checksum_nonzero() {
    let payload = b"hello";
    let mut seg = vec![0u8; UDP_HDR + payload.len()];
    let src = [198, 18, 0, 2];
    let dst = [172, 19, 0, 2];
    write_udp(&mut seg, 53, 12345, payload, src, dst);
    assert_ne!(&seg[6..8], &[0, 0]);
}

/// The sum of words with the carries added back, as every checksum is checked.
fn ones_sum(b: &[u8], mut sum: u32) -> u32 {
    for w in b.chunks(2) {
        sum += u32::from(w[0]) << 8 | u32::from(*w.get(1).unwrap_or(&0));
    }
    while sum >> 16 != 0 {
        sum = (sum & 0xffff) + (sum >> 16);
    }
    sum
}

fn pseudo(src: [u8; 4], dst: [u8; 4], proto: u8, len: usize) -> u32 {
    let mut b = [src, dst].concat();
    b.extend([0, proto, (len >> 8) as u8, len as u8]);
    ones_sum(&b, 0)
}

fn ipv4(proto: u8, src: [u8; 4], dst: [u8; 4], body: &[u8]) -> Vec<u8> {
    let mut p = vec![0u8; 20];
    p[0] = 0x45;
    p[8] = 64;
    p[9] = proto;
    p.extend_from_slice(body);
    let n = p.len() as u16;
    set_addresses(&mut p, 20, src, dst);
    set_total_length(&mut p, n);
    p
}

fn tcp(src: [u8; 4], sport: u16, dst: [u8; 4], dport: u16, data: &[u8]) -> Vec<u8> {
    let mut seg = vec![0u8; 20];
    seg[12] = 0x50;
    seg[13] = 2;
    set_tcp_ports(&mut seg, sport, dport);
    seg.extend_from_slice(data);
    let mut p = ipv4(6, src, dst, &seg);
    update_tcp_checksum(&mut p, 20, src, dst);
    p
}

fn checked(p: &[u8]) {
    let (h, proto, src, dst, total) = parse_ipv4(p).unwrap();
    assert_eq!(ones_sum(&p[..h], 0), 0xffff);
    assert_eq!(ones_sum(&p[h..total], pseudo(src, dst, proto, total - h)), 0xffff);
}

#[test]
fn packets_have_their_checksums() {
    for data in [&b""[..], b"x", b"even", b"odd in length"] {
        checked(&tcp([1, 2, 3, 4], 1000, [5, 6, 7, 8], 443, data));
        let u = build_udp(53, 99, data, [1, 2, 3, 4], [5, 6, 7, 8]);
        assert_eq!(parse_udp(&u), Some((53, 99, data.len())));
        checked(&ipv4(17, [1, 2, 3, 4], [5, 6, 7, 8], &u));
    }
    // The header of a well-known example, whose checksum is b861.
    let mut h = [0x45, 0, 0, 0x73, 0, 0, 0x40, 0, 0x40, 0x11, 0, 0, 0, 0, 0, 0, 0, 0, 0, 0];
    set_addresses(&mut h, 20, [192, 168, 0, 1], [192, 168, 0, 199]);
    assert_eq!(&h[10..12], &[0xb8, 0x61]);
    assert_eq!(parse_ipv4(&[0x45; 19]), None);
    assert_eq!(parse_ipv4(&[0x65; 40]), None);
    assert_eq!(parse_udp(&[0; 7]), None);
    assert_eq!(parse_tcp(&[0; 19]), None);
    let t = tcp([1, 2, 3, 4], 1000, [5, 6, 7, 8], 443, b"ab");
    assert_eq!(parse_tcp(&t[20..]), Some((1000, 443, 2, 20)));
}

fn end(ip: [u8; 4], port: u16) -> Endpoint {
    Endpoint { ip, port }
}

#[test]
fn ports_lead_back() {
    let mut t = TcpNat::new(1000);
    let d = end([9, 9, 9, 9], 443);
    let a = t.lookup(end([1, 1, 1, 1], 5), d, 0).unwrap();
    let b = t.lookup(end([1, 1, 1, 1], 6), end([8, 8, 8, 8], 80), 0).unwrap();
    assert!(a >= FIRST_PORT && a != b);
    assert_eq!(t.lookup(end([1, 1, 1, 1], 5), d, 10), Some(a));
    let (s, e) = t.lookup_back(a, 500).unwrap();
    assert_eq!((s.ip, s.port, e.ip, e.port), ([1, 1, 1, 1], 5, [9, 9, 9, 9], 443));
    assert!(t.lookup_back(1, 0).is_none());
    assert!(t.has_destination([8, 8, 8, 8]) && !t.has_destination([7, 7, 7, 7]));
    assert_eq!(t.destinations().len(), 2);
    // One that was used stays; the other is forgotten.
    t.sweep(1001);
    assert!(t.lookup_back(b, 1001).is_none());
    assert!(t.lookup_back(a, 1001).is_some());
    t.sweep(2001);
    assert!(t.has_destination([9, 9, 9, 9]));
    t.sweep(2002);
    assert!(!t.has_destination([9, 9, 9, 9]));
}

#[test]
fn packets_go_to_the_listener_and_back() {
    let mut t = TcpNat::new(1000);
    let mut pool = FakeIpPool::new();
    let syn = tcp([172, 19, 0, 2], 4000, [9, 9, 9, 9], 443, b"");
    let out = process_packet(&mut t, &mut pool, 7000, &syn, 0).unwrap();
    checked(&out);
    let (h, _, src, dst, _) = parse_ipv4(&out).unwrap();
    assert_eq!((src, dst), (tun_client(), tun_server()));
    let (port, to, _, _) = parse_tcp(&out[h..]).unwrap();
    assert_eq!(to, 7000);
    let answer = tcp(tun_server(), 7000, tun_client(), port, b"hi");
    let back = process_packet(&mut t, &mut pool, 7000, &answer, 1).unwrap();
    checked(&back);
    let (h, _, src, dst, _) = parse_ipv4(&back).unwrap();
    assert_eq!((src, dst), ([9, 9, 9, 9], [172, 19, 0, 2]));
    assert_eq!(parse_tcp(&back[h..]).map(|x| (x.0, x.1)), Some((443, 4000)));
    assert_eq!(&back[h + 20..], b"hi");
    // Nothing is sent where no connection is known, nor to other networks.
    let stray = tcp(tun_server(), 7000, tun_client(), 1, b"");
    assert!(process_packet(&mut t, &mut pool, 7000, &stray, 1).is_none());
    for dst in [[224, 0, 0, 1], [127, 0, 0, 1], [172, 19, 0, 3]] {
        assert!(process_packet(&mut t, &mut pool, 7000, &tcp([1, 1, 1, 1], 1, dst, 2, b""), 1).is_none());
    }
    let icmp = ipv4(1, [1, 1, 1, 1], [9, 9, 9, 9], &[0; 8]);
    assert!(process_packet(&mut t, &mut pool, 7000, &icmp, 1).is_none());
    assert!(is_tun_prefix([172, 19, 0, 3]) && !is_tun_prefix([172, 19, 0, 4]));
    assert!(is_global_unicast([9, 9, 9, 9]) && !is_global_unicast([255, 255, 255, 255]));
}

fn rules_file() -> Vec<u8> {
    let mut b = b"CFWR\x01".to_vec();
    b.extend_from_slice(&4u32.to_le_bytes());
    for (key, packed) in [
        ("com\u{1}baidu", 0x82u8),
        ("com\u{1}google", 0x83),
        ("com\u{1}gstatic", 0x83),
        ("com\u{1}ads", 0x81),
    ] {
        b.extend_from_slice(&(key.len() as u16).to_le_bytes());
        b.extend_from_slice(key.as_bytes());
        b.push(packed);
    }
    b
}

#[test]
fn answered_names_lead_back() {
    let mut t = TcpNat::new(1000);
    let mut pool = FakeIpPool::new();
    let mut db = RuleDb::load_bytes(&rules_file()).unwrap();
    let doh = DohBlocklist::new();
    let mut ask = |t: &mut TcpNat, pool: &mut FakeIpPool, name: &str| -> [u8; 4] {
        let q = build_dns_query(7, name);
        let u = build_udp(4000, 53, &q, [172, 19, 0, 2], [198, 18, 0, 2]);
        let p = ipv4(17, [172, 19, 0, 2], [198, 18, 0, 2], &u);
        let out = process_packet(t, pool, 7000, &p, 0).unwrap();
        checked(&out);
        let (h, _, src, dst, total) = parse_ipv4(&out).unwrap();
        assert_eq!((src, dst), ([198, 18, 0, 2], [172, 19, 0, 2]));
        assert_eq!(parse_udp(&out[h..total]).map(|x| (x.0, x.1)), Some((53, 4000)));
        let found = parse_a_answers(&out[h + 8..total]).unwrap();
        assert_eq!(found.len(), 1);
        found[0]
    };
    let mut arrive = |t: &mut TcpNat, pool: &mut FakeIpPool, ip: [u8; 4], port: u16| -> Accepted {
        let p = t.lookup(end([172, 19, 0, 2], 5000), end(ip, port), 0).unwrap();
        accept(t, pool, &doh, &mut db, p, true, 0)
    };
    let google = ask(&mut t, &mut pool, "www.google.com");
    assert!(FakeIpPool::is_fake_ip_v4(google));
    assert_eq!(ask(&mut t, &mut pool, "www.google.com"), google);
    assert!(matches!(arrive(&mut t, &mut pool, google, 443), Accepted::Proxy(s) if s == "www.google.com:443"));
    let baidu = ask(&mut t, &mut pool, "baidu.com");
    assert_ne!(baidu, google);
    match arrive(&mut t, &mut pool, baidu, 80) {
        Accepted::Direct { host, ip, port } => {
            assert_eq!((host.as_deref(), ip, port), (Some("baidu.com"), baidu, 80));
        }
        other => panic!("{other:?}"),
    }
    let ads = ask(&mut t, &mut pool, "x.ads.com");
    assert!(matches!(arrive(&mut t, &mut pool, ads, 80), Accepted::Drop));
    assert!(matches!(arrive(&mut t, &mut pool, [198, 18, 99, 99], 80), Accepted::Drop));
    assert!(matches!(arrive(&mut t, &mut pool, [9, 9, 9, 9], 53), Accepted::Dns));
    assert!(matches!(arrive(&mut t, &mut pool, [8, 8, 8, 8], 853), Accepted::Drop));
    assert!(matches!(arrive(&mut t, &mut pool, [1, 2, 3, 4], 22), Accepted::Proxy(s) if s == "1.2.3.4:22"));
    assert!(matches!(arrive(&mut t, &mut pool, [10, 0, 0, 1], 22), Accepted::Direct { host: None, .. }));
}

#[test]
fn queries_over_tcp() {
    let t = TcpNat::new(1000);
    let mut pool = FakeIpPool::new();
    let q = build_dns_query(7, "a.example");
    let mut b = (q.len() as u16).to_be_bytes().to_vec();
    b.extend_from_slice(&q);
    assert!(matches!(handle_dns_tcp(&t, &mut pool, &b[..1]), DnsTcp::More));
    assert!(matches!(handle_dns_tcp(&t, &mut pool, &b[..9]), DnsTcp::More));
    match handle_dns_tcp(&t, &mut pool, &b) {
        DnsTcp::Reply(m, n) => {
            assert_eq!(n, b.len());
            assert_eq!(u16::from_be_bytes([m[0], m[1]]) as usize + 2, m.len());
            let ip = parse_a_answers(&m[2..]).unwrap()[0];
            assert_eq!(pool.lookback(ip).as_deref(), Some("a.example"));
        }
        other => panic!("{other:?}"),
    }
    assert!(matches!(handle_dns_tcp(&t, &mut pool, &[0, 3, 1, 2, 3]), DnsTcp::End));
    assert!(matches!(handle_dns_tcp(&t, &mut pool, &[0x20, 0, 1]), DnsTcp::End));
}

#[test]
fn direct_connections_of_the_tunnel() {
    assert!(matches!(direct_plan(Some("h"), [198, 18, 0, 9], 80), DirectPlan::Resolve(h) if h == "h"));
    assert!(matches!(direct_plan(None, [1, 2, 3, 4], 80), DirectPlan::Connect(h) if h == "1.2.3.4:80"));
    assert_eq!(resolved_target("h", Some([1, 2, 3, 4]), 5), Ok("1.2.3.4:5".to_string()));
    assert_eq!(resolved_target("h", None, 5), Err("Direct DoH failed for h".to_string()));
    assert!(matches!(receive_outcome(259), Received::Empty));
    assert!(matches!(receive_outcome(38), Received::Ended));
    assert!(matches!(receive_outcome(5), Received::Fail(m) if m == "WintunReceivePacket 5"));
    let mut g = Generation::new();
    assert!(g.is_current(0));
    g.bump_generation();
    assert!(!g.is_current(0) && g.is_current(1));
}

fn nic(name: &str, index: u32, local: [u8; 4], gateway: Option<[u8; 4]>) -> Nic {
    Nic { name: name.into(), index, local, gateway, dns: vec![[9, 9, 9, 9]], if_type: 6 }
}

#[test]
fn the_physical_interface_is_found() {
    let all = vec![
        nic("NanoClash", 1, [172, 19, 0, 1], Some([172, 19, 0, 1])),
        nic("none", 2, [10, 0, 0, 2], None),
        nic("Ethernet", 3, [10, 0, 0, 3], Some([10, 0, 0, 1])),
        nic("Wi-Fi", 4, [10, 0, 0, 4], Some([10, 0, 0, 1])),
    ];
    let e = probe(&all, None).unwrap();
    assert_eq!((e.interface_index, e.name.as_str(), e.gateway), (3, "Ethernet", [10, 0, 0, 1]));
    assert_eq!(probe(&all, Some([10, 0, 0, 4])).unwrap().name, "Wi-Fi");
    assert_eq!(probe(&all, Some([10, 0, 0, 2])).unwrap().name, "Ethernet");
    assert_eq!(
        probe(&all[..2], None).unwrap_err(),
        "No usable physical IPv4 default interface found"
    );
    let mut caught = nic("Wi-Fi", 4, [10, 0, 0, 4], None);
    caught.dns = vec![[198, 18, 0, 2]];
    assert_eq!(fake_dns_interface_names(&[caught]), ["Wi-Fi"]);
    assert_eq!(preferred_local(Ip::V6([0; 16])), None);
    let raw = RawNic {
        name: "x".into(),
        index: 3,
        unicast: vec![[127, 0, 0, 1], [169, 254, 0, 1], [10, 0, 0, 3]],
        gateways: vec![[0; 4], [10, 0, 0, 1]],
        dns: vec![],
        if_type: 6,
    };
    let n = parse_nic(&raw).unwrap();
    assert_eq!((n.local, n.gateway), ([10, 0, 0, 3], Some([10, 0, 0, 1])));
    assert!(parse_nic(&RawNic { unicast: vec![], ..raw }).is_none());
}

fn line(c: &Command) -> String {
    match c {
        Command::Netsh(s) => format!("netsh {s}"),
        Command::Run(p, a) => format!("{p} {}", a.join(" ")),
    }
}

fn all_lines(v: &[Command]) -> Vec<String> {
    v.iter().map(line).collect()
}

fn physical() -> PhysicalEndpoint {
    PhysicalEndpoint {
        interface_index: 3,
        local_address: [10, 0, 0, 3],
        gateway: [10, 0, 0, 1],
        name: "My \"net\"".into(),
        dns_servers: vec![],
    }
}

#[test]
fn everything_is_taken_back() {
    let mut r = TunRoutes::new(physical());
    let plan = r.plan_node_route([9, 9, 9, 9]);
    assert_eq!(line(&plan.add), "route add 9.9.9.9 mask 255.255.255.255 10.0.0.1 if 3");
    assert_eq!(line(&plan.replace), "route delete 9.9.9.9 mask 255.255.255.255");
    assert!(plan.former.is_none());
    r.set_node_host_route([9, 9, 9, 9]);
    let next = r.plan_node_route([8, 8, 8, 8]);
    assert_eq!(
        next.former.as_ref().map(line).as_deref(),
        Some("route delete 9.9.9.9 mask 255.255.255.255 10.0.0.1")
    );
    let kept = r.disable_ipv6(true);
    assert_eq!(
        all_lines(&r.install_split_default()),
        ["route add 0.0.0.0 mask 128.0.0.0 172.19.0.1", "route add 128.0.0.0 mask 128.0.0.0 172.19.0.1"]
    );
    // After a crash, what was kept is taken back.
    let lines = all_lines(&recover(Some(&kept)));
    assert_eq!(
        lines,
        [
            "netsh interface ip set dns name=\"My \"net\"\" dhcp",
            "netsh interface ipv6 set interface name=\"My \"net\"\" admin=enabled",
            "route delete 9.9.9.9 mask 255.255.255.255",
            "route delete 0.0.0.0 mask 128.0.0.0",
            "route delete 128.0.0.0 mask 128.0.0.0",
            "netsh interface ip set dns name=\"NanoClash\" dhcp",
        ]
    );
    assert_eq!(recover(Some("not json")).len(), 3);
    assert_eq!(recover(None).len(), 3);
    let own = all_lines(&r.uninstall());
    assert!(own.contains(&"route delete 9.9.9.9 mask 255.255.255.255 10.0.0.1".to_string()));
    assert!(own.contains(&lines[1]));
    assert_eq!(r.uninstall().len(), 4);
    assert!(line(&allow_firewall("x.exe")).ends_with("program=x.exe enable=yes"));
}

#[test]
fn fake_resolvers_are_found_in_reports() {
    let report = "Configuration for interface \"Wi-Fi\"\n  DNS: 198.18.0.2\n\n接口 \"以太网\" 的配置\n   198.18.0.2\nConfiguration for interface \"ok\"\n 9.9.9.9\nConfiguration for interface \"NanoClash\"\n 198.18.0.2\n";
    let names = parse_fake_dns_names(report);
    let text: Vec<String> = names.iter().map(|n| n.iter().collect()).collect();
    assert_eq!(text, ["Wi-Fi", "以太网", "NanoClash"]);
    let merged = merge_names(&vec!["Wi-Fi".to_string(), "x".to_string()], &names);
    assert_eq!(merged.len(), 4);
    assert_eq!(restore_fake_dns_nics(&merged).len(), 3);
}

#[test]
fn the_setup_comes_to_an_end() {
    let mut s = InterfaceSetup::new();
    let mut steps = 0;
    let mut runs = 0;
    loop {
        let e = match s.action() {
            SetupAction::Check => SetupEvent::Bindable(false),
            SetupAction::Run(k) => {
                runs += 1;
                assert!(!line(&s.command(k)).is_empty());
                SetupEvent::Ran(false)
            }
            SetupAction::Sleep => SetupEvent::Woke,
            SetupAction::Done => panic!("done without success"),
            SetupAction::Fail => break,
        };
        s.step(e);
        steps += 1;
        assert!(steps < 1000);
    }
    assert_eq!(runs, 90);
    let mut s = InterfaceSetup::new();
    s.step(SetupEvent::Bindable(false));
    s.step(SetupEvent::Ran(true));
    assert_eq!(s.action(), SetupAction::Done);
}

#[test]
fn the_service_starts_once() {
    let node = ProxyNode { name: "n".into(), ..Default::default() };
    let notice = ProxyNode { name: "剩余流量: 1 GB".into(), ..Default::default() };
    let mut s = TunService::new();
    assert_eq!(s.check_start(Some(&node)).as_deref(), Some("TunService not configured"));
    s.configure();
    assert_eq!(
        s.check_start(Some(&notice)).as_deref(),
        Some("Select a proxy node before enabling enhance mode")
    );
    assert_eq!(s.check_start(Some(&node)), None);
    assert!(matches!(s.start(false), StartStep::Refused(_)));
    assert!(matches!(s.start(true), StartStep::Go));
    assert!(matches!(s.start(true), StartStep::Wait));
    s.started(false);
    assert!(matches!(s.waited(), StartStep::Refused(m) if m == "enhance start already in progress"));
    s.start(true);
    s.started(true);
    assert!(s.is_running() && matches!(s.start(true), StartStep::Running));
    assert!(!s.keeps_routes(Some(&node)) && s.keeps_routes(None));
    s.stop();
    assert!(!s.is_running());
    assert_eq!(node_address(Some(Ip::V4([1, 2, 3, 4]))), Ok([1, 2, 3, 4]));
    assert!(node_address(None).is_err() && node_address(Some(Ip::V6([0; 16]))).is_err());
    assert!(driver_is_stale(None, b"a") && driver_is_stale(Some(b"b"), b"a"));
    assert!(!driver_is_stale(Some(b"a"), b"a"));
}
