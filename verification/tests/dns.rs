use rust_clash::dns::doh::{
    begin_lookup, body_at_end, cache_time, cached, doh_request, http_body_if_complete,
    judge_reply, lookup_request, next_dns_id, next_source, parse_doh_ips, system_answers,
    DohBlocklist, Lookup, Reply, SharedLookups, Source,
};
use rust_clash::dns::fake_ip::{dns_address, FakeIpPool};
use rust_clash::dns::message::{
    build_a_response, build_dns_query, build_empty_dns, build_named_a_response, encode_dns_name,
    parse_a_answers, parse_dns_query, read_dns_name,
};
use rust_clash::ip::Ip;

#[test]
fn fake_addresses_lead_back() {
    let mut pool = FakeIpPool::new();
    let a = pool.lookup("a.example");
    let b = pool.lookup("b.example");
    assert_ne!(a, b);
    assert_eq!(b, [198, 18, 0, 5]);
    assert_eq!(pool.lookup("a.example"), a);
    assert_eq!(pool.lookback(a).as_deref(), Some("a.example"));
    assert_eq!(pool.lookback(b).as_deref(), Some("b.example"));
    assert_eq!(pool.lookback([198, 18, 0, 6]), None);
    assert_eq!(pool.lookback([8, 8, 8, 8]), None);
    assert_eq!(dns_address(), [198, 18, 0, 2]);
}

#[test]
fn fake_addresses_in_use_are_not_given_away() {
    let mut pool = FakeIpPool::new();
    let busy = [[198, 18, 0, 4], [198, 18, 0, 5]];
    let a = pool.lookup_avoiding("a.example", &busy);
    assert_eq!(a, [198, 18, 0, 6]);
    assert!(!busy.contains(&a));
}

#[test]
fn fake_pool_forgets_the_oldest() {
    let mut pool = FakeIpPool::new();
    let first = pool.lookup("n0");
    for i in 1..9000u32 {
        pool.lookup(&format!("n{i}"));
    }
    assert_eq!(pool.entries.len(), 8192);
    assert_eq!(pool.lookback(first), None);
    let mut seen: Vec<u32> = pool.entries.iter().map(|e| e.1).collect();
    seen.sort();
    seen.dedup();
    assert_eq!(seen.len(), 8192);
}

#[test]
fn fake_range_leaves_out_its_ends() {
    assert!(!FakeIpPool::is_fake_ip_v4([198, 18, 0, 2]));
    assert!(FakeIpPool::is_fake_ip_v4([198, 18, 0, 4]));
    assert!(!FakeIpPool::is_fake_ip_v4([198, 19, 0, 4]));
    assert!(!FakeIpPool::is_fake_ip_v4([8, 8, 8, 8]));
    assert!(!FakeIpPool::is_fake_ip(Ip::V6([0; 16])));
}

#[test]
fn dns_messages_read_back() {
    let q = build_dns_query(0x1234, "Example.COM");
    let (id, name, ty) = parse_dns_query(&q).unwrap();
    assert_eq!((id, name.to_ascii_lowercase().as_str(), ty), (0x1234, "example.com", 1));
    assert_eq!(
        build_dns_query(7, "a.b"),
        vec![0, 7, 1, 0, 0, 1, 0, 0, 0, 0, 0, 0, 1, b'a', 1, b'b', 0, 0, 1, 0, 1]
    );
    let answer = build_a_response(&q, [9, 8, 7, 6]).unwrap();
    assert_eq!(parse_a_answers(&answer), Some(vec![[9, 8, 7, 6]]));
    assert_eq!(&answer[..2], &q[..2]);
    assert_eq!(build_a_response(&q[..10], [9, 8, 7, 6]), None);
    assert_eq!(parse_dns_query(&q[..11]), None);
    // A name of the most labels, and one with the longest label.
    let many = vec!["a"; 63].join(".");
    assert_eq!(parse_dns_query(&build_dns_query(1, &many)), Some((1, many.clone(), 1)));
    let long = format!("{}.Example", "x".repeat(63));
    assert_eq!(parse_dns_query(&build_dns_query(2, &long)), Some((2, long.to_lowercase(), 1)));
    let more = vec!["a"; 64].join(".");
    assert_eq!(parse_dns_query(&build_dns_query(3, &more)), None);
    // A response, and a message without a question.
    let mut r = build_dns_query(4, "a.b");
    r[2] = 0x81;
    assert_eq!(parse_dns_query(&r), None);
    let mut n = build_dns_query(5, "a.b");
    n[5] = 0;
    assert_eq!(parse_dns_query(&n), None);
}

#[test]
fn lookups_of_one_name_are_shared() {
    let mut s: SharedLookups<u32> = SharedLookups::new();
    assert_eq!(s.join("a.b", 1), None);
    assert_eq!(s.join("c.d", 2), None);
    assert_eq!(s.join("a.b", 3), Some(0));
    let i = s.join("c.d", 4).unwrap();
    assert_eq!(s.items[i].news, 2);
    assert_eq!(s.finish("a.b"), Some(1));
    assert_eq!(s.finish("a.b"), None);
    assert_eq!(s.join("a.b", 5), None);
    assert_eq!(s.join("c.d", 6), Some(0));
    assert_eq!(s.finish("a.b"), Some(5));
}

#[test]
fn named_answers_read_back() {
    let m = build_named_a_response(9, "www.example.com", [1, 1, 1, 1]);
    assert_eq!(parse_a_answers(&m), Some(vec![[1, 1, 1, 1]]));
    let (name, end) = read_dns_name(&m, 12).unwrap();
    assert_eq!(name.iter().collect::<String>(), "www.example.com");
    assert_eq!(end, 12 + 17);
    assert!(matches!(judge_reply(9, &m), Reply::Addresses(v) if v == vec![[1, 1, 1, 1]]));
    assert!(matches!(judge_reply(8, &m), Reply::Ignore));
    let e = build_empty_dns(9, "www.example.com", 28);
    assert!(matches!(judge_reply(9, &e), Reply::Empty));
    assert_eq!(parse_a_answers(&e), Some(vec![]));
}

#[test]
fn names_are_encoded_by_label() {
    assert_eq!(encode_dns_name("ab.c"), vec![2, b'a', b'b', 1, b'c', 0]);
    assert_eq!(encode_dns_name(""), vec![0]);
}

#[test]
fn names_that_point_in_circles_are_refused() {
    let mut m = vec![0u8; 12];
    m.extend_from_slice(&[0xC0, 12]);
    assert!(read_dns_name(&m, 12).is_none());
}

#[test]
fn known_resolvers_are_blocked() {
    let b = DohBlocklist::new();
    assert!(b.is_blocked(Ip::V4([8, 8, 8, 8])));
    assert!(b.is_blocked(Ip::V4([1, 1, 1, 1])));
    assert!(!b.is_blocked(Ip::V4([93, 184, 216, 34])));
    assert!(!b.is_blocked(Ip::V6([0; 16])));
}

#[test]
fn http_answers_of_resolvers() {
    assert_eq!(http_body_if_complete(b"HTTP/1.1 200 OK\r\nContent-Length: 5"), None);
    assert_eq!(body_at_end(b"HTTP/1.1 200 OK\r\n\r\nabc"), "abc");
    let r = doh_request("/resolve", "name=a", "dns.alidns.com");
    assert!(r.starts_with("GET /resolve?name=a HTTP/1.1\r\n"), "{r}");
    assert!(r.contains("Host: dns.alidns.com\r\n"));
    assert!(r.ends_with("\r\n\r\n"));
    let l = lookup_request("https://dns.alidns.com/resolve", "www.example.com", "dns.alidns.com");
    assert!(l.unwrap().contains("www.example.com"));
    assert_eq!(lookup_request("not a url", "www.example.com", "x"), None);
    assert!(parse_doh_ips("{").is_none());
    assert_eq!(parse_doh_ips("{}"), Some(vec![]));
    assert_eq!(
        parse_doh_ips(r#"{"Answer":[{"type":5,"data":"cname"},{"type":28,"data":"::1"}]}"#)
            .unwrap()
            .len(),
        1
    );
}

#[test]
fn lookups_go_through_the_sources() {
    assert!(matches!(begin_lookup("  "), Lookup::Empty));
    assert!(matches!(begin_lookup("1.2.3.4"), Lookup::Literal(Ip::V4([1, 2, 3, 4]))));
    assert!(matches!(begin_lookup("Example.com."), Lookup::Name(n) if n == "example.com"));
    let walk = |bound: bool| {
        let mut v = Vec::new();
        while let Some(s) = next_source(bound, v.len()) {
            v.push(s);
        }
        v
    };
    assert_eq!(walk(true).last(), Some(&Source::DohPub));
    assert_eq!(walk(false).first(), Some(&Source::System));
    assert!(!walk(true).contains(&Source::System));
    assert_eq!(cached(None), None);
    assert_eq!(cached(Some(Some(vec![Ip::V4([1, 2, 3, 4])]))), Some(Ok(vec![Ip::V4([1, 2, 3, 4])])));
    assert!(matches!(cached(Some(None)), Some(Err(_))));
    assert!(cache_time(true) > cache_time(false));
    assert_eq!(system_answers(&[Ip::V4([198, 18, 0, 9]), Ip::V4([1, 2, 3, 4])]), vec![Ip::V4([1, 2, 3, 4])]);
    let (id, next) = next_dns_id(65535);
    assert_ne!(id, next);
}
