use std::io::Write;

use rust_clash::ip::Ip;
use rust_clash::rules::{
    action_for_ip, extract_rules, join_host_port, plan_extract, try_split_host_port, with_port,
    Extract, RuleAction, RuleDb,
};
use rust_clash::utils::{domain_to_ascii, TtlLru};

fn record(out: &mut Vec<u8>, key: &[&str], packed: u8) {
    let k = key.join("\u{1}");
    out.extend_from_slice(&(k.len() as u16).to_le_bytes());
    out.extend_from_slice(k.as_bytes());
    out.push(packed);
}

/// A database with the records that every one must have, and some more.
fn rules_file() -> Vec<u8> {
    let mut b = b"CFWR\x01".to_vec();
    b.extend_from_slice(&7u32.to_le_bytes());
    record(&mut b, &["com", "baidu"], 0x80 | 2);
    record(&mut b, &["com", "google"], 0x80 | 3);
    record(&mut b, &["com", "gstatic"], 0x80 | 3);
    record(&mut b, &["com", "example"], 0x80 | 2);
    record(&mut b, &["com", "example", "ads"], 0x80 | 1);
    record(&mut b, &["com", "example", "exact"], 3);
    record(&mut b, &["com", "example", "odd"], 0x80 | 9);
    b
}

#[test]
fn rules_choose_the_longest_suffix() {
    let mut db = RuleDb::load_bytes(&rules_file()).unwrap();
    assert_eq!(db.match_domain("www.baidu.com", 0), RuleAction::Direct);
    assert_eq!(db.match_domain("example.com", 0), RuleAction::Direct);
    assert_eq!(db.match_domain("a.b.example.com", 0), RuleAction::Direct);
    assert_eq!(db.match_domain("x.ads.example.com", 0), RuleAction::Reject);
    // Letter case and a dot behind the name do not count.
    assert_eq!(db.match_domain("X.Ads.EXAMPLE.com", 0), RuleAction::Reject);
    assert_eq!(db.match_domain("x.ads.example.com.", 0), RuleAction::Reject);
    assert_eq!(db.match_domain("x.ads.example.com..", 0), RuleAction::Reject);
    // A record without the flag stands for its own name only.
    assert_eq!(db.match_domain("exact.example.com", 0), RuleAction::Proxy);
    assert_eq!(db.match_domain("sub.exact.example.com", 0), RuleAction::Direct);
    // An unknown action is that of an unknown domain.
    assert_eq!(db.match_domain("odd.example.com", 0), RuleAction::Proxy);
    assert_eq!(db.match_domain("unknown.org", 0), RuleAction::Proxy);
    assert_eq!(db.match_domain("", 0), RuleAction::Proxy);
    assert_eq!(db.match_domain("...", 0), RuleAction::Proxy);
}

#[test]
fn rules_answer_the_same_from_the_cache() {
    let mut db = RuleDb::load_bytes(&rules_file()).unwrap();
    for now in [0u64, 1, 599_999, 600_000, 600_001, 5_000_000] {
        assert_eq!(db.match_domain(" WWW.Baidu.com. ", now), RuleAction::Direct);
        assert_eq!(db.match_domain("10.0.0.1", now), RuleAction::Direct);
    }
}

#[test]
fn what_the_cache_of_rules_holds() {
    let mut db = RuleDb::load_bytes(&rules_file()).unwrap();
    let held = |db: &RuleDb| -> Vec<(String, u64)> {
        db.cache.items.iter().map(|e| (e.key.clone(), e.expire)).collect()
    };
    db.match_domain("", 0);
    db.match_domain("10.0.0.1", 0);
    assert!(held(&db).is_empty());
    db.match_domain("A.org", 5);
    db.decide_route("b.org:443", 6);
    db.match_domain("a.org", 600_005);
    assert_eq!(held(&db), [("a.org".to_string(), 600_005), ("b.org".to_string(), 600_006)]);
    db.match_domain("a.org", 600_006);
    assert_eq!(held(&db), [("b.org".to_string(), 600_006), ("a.org".to_string(), 1_200_006)]);
}

#[test]
fn a_database_beside_the_program_counts() {
    let embedded = rules_file();
    let mut beside = rules_file();
    beside[5] = 8;
    record(&mut beside, &["org", "x"], 0x80 | 1);
    let action = |sidecar: Option<&[u8]>| {
        RuleDb::load_default(sidecar, &embedded).map(|mut db| db.match_domain("x.org", 0))
    };
    assert_eq!(action(None), Ok(RuleAction::Proxy));
    assert_eq!(action(Some(&beside)), Ok(RuleAction::Reject));
    assert_eq!(action(Some(b"x")), Err("rules.bin: bad magic".to_string()));
    assert!(RuleDb::load_default(None, &[]).is_err());
}

#[test]
fn routes_of_authorities() {
    let mut db = RuleDb::load_bytes(&rules_file()).unwrap();
    assert_eq!(db.decide_route("ads.example.com:443", 0), RuleAction::Reject);
    assert_eq!(db.decide_route("192.168.1.1:80", 0), RuleAction::Direct);
    assert_eq!(db.decide_route("[::1]:80", 0), RuleAction::Direct);
    assert_eq!(db.decide_route("[2001:db8::1]:80", 0), RuleAction::Proxy);
    assert_eq!(db.decide_route(" [fe80::1] ", 0), RuleAction::Direct);
    assert_eq!(db.decide_route("www.baidu.com", 0), RuleAction::Direct);
}

#[test]
fn rules_files_that_are_refused() {
    let fail = |b: &[u8]| match RuleDb::load_bytes(b) {
        Ok(_) => panic!("loaded"),
        Err(e) => e,
    };
    assert_eq!(fail(b"CFWR\x01"), "rules.bin: bad magic");
    assert_eq!(fail(b"CFWX\x01\0\0\0\0"), "rules.bin: bad magic");
    assert_eq!(fail(b"CFWR\x02\0\0\0\0"), "rules.bin: bad magic");
    assert_eq!(fail(b"CFWR\x01\x01\0\0\0"), "rules.bin truncated");
    assert_eq!(fail(b"CFWR\x01\x01\0\0\0\x05\0ab"), "rules.bin truncated key");
    assert_eq!(
        fail(b"CFWR\x01\0\0\0\0"),
        "rules self-check: www.baidu.com got Proxy want Direct"
    );
}

#[test]
fn gzip_rules_are_extracted() {
    let plain = rules_file();
    let mut e = flate2::write::GzEncoder::new(Vec::new(), flate2::Compression::default());
    e.write_all(&plain).unwrap();
    let gz = e.finish().unwrap();
    match extract_rules(&gz, None) {
        Some(Ok(Extract::Write(b))) => assert_eq!(b, plain),
        other => panic!("{other:?}"),
    }
    match extract_rules(&gz, Some(b"older")) {
        Some(Ok(Extract::Write(b))) => assert_eq!(b, plain),
        other => panic!("{other:?}"),
    }
    assert!(matches!(extract_rules(&gz, Some(&plain)), Some(Ok(Extract::Keep))));
    assert!(extract_rules(b"not gzip", None).is_none());
    match plan_extract(Vec::new(), None) {
        Err(m) => assert_eq!(m, "Embedded rules database is empty after GZip decompress."),
        other => panic!("{other:?}"),
    }
}

#[test]
fn local_addresses_are_direct() {
    let direct = |a: [u8; 4]| assert_eq!(action_for_ip(Ip::V4(a)), RuleAction::Direct, "{a:?}");
    let proxied = |a: [u8; 4]| assert_eq!(action_for_ip(Ip::V4(a)), RuleAction::Proxy, "{a:?}");
    direct([127, 0, 0, 1]);
    direct([172, 16, 0, 1]);
    direct([172, 31, 255, 255]);
    proxied([172, 32, 0, 0]);
    direct([169, 254, 1, 1]);
    direct([100, 64, 0, 0]);
    direct([100, 127, 0, 0]);
    proxied([100, 128, 0, 0]);
    direct([0, 0, 0, 0]);
    proxied([0, 0, 0, 1]);
    let mut six = [0u8; 16];
    assert_eq!(action_for_ip(Ip::V6(six)), RuleAction::Proxy);
    six[15] = 1;
    assert_eq!(action_for_ip(Ip::V6(six)), RuleAction::Direct);
    six[0] = 0xfd;
    assert_eq!(action_for_ip(Ip::V6(six)), RuleAction::Direct);
    six[0] = 0xff;
    assert_eq!(action_for_ip(Ip::V6(six)), RuleAction::Direct);
    six[0] = 0xfe;
    six[1] = 0xbf;
    assert_eq!(action_for_ip(Ip::V6(six)), RuleAction::Direct);
    six[1] = 0xc0;
    assert_eq!(action_for_ip(Ip::V6(six)), RuleAction::Proxy);
}

#[test]
fn splitting_undoes_joining() {
    for (h, p) in [("example.com", "443"), ("::1", "80"), ("1.2.3.4", "0"), ("2001:db8::2", "x"), ("a[b]c", "1"), ("f[::1", "2")] {
        let joined = join_host_port(h, p);
        assert_eq!(try_split_host_port(&joined), Some((h.to_string(), p.to_string())));
    }
    assert_eq!(join_host_port("::1", "80"), "[::1]:80");
    assert_eq!(join_host_port("[::1]", "80"), "[::1]:80");
    assert_eq!(try_split_host_port("example.com"), None);
    assert_eq!(try_split_host_port("example.com:"), None);
    assert_eq!(try_split_host_port(":80"), None);
    assert_eq!(try_split_host_port("[::1]:"), None);
    assert_eq!(try_split_host_port("[::1]"), None);
    assert_eq!(try_split_host_port("::1"), None);
    assert_eq!(with_port("  ", "443"), None);
    assert_eq!(with_port("[]", "443"), None);
    assert_eq!(with_port(" ::1 ", "443").as_deref(), Some("[::1]:443"));
}

#[test]
fn domains_are_made_ascii() {
    assert_eq!(domain_to_ascii("  WWW.Example.COM.. "), "www.example.com");
    assert_eq!(domain_to_ascii(""), "");
    assert_eq!(domain_to_ascii("b\u{fc}cher.example"), "xn--bcher-kva.example");
    assert_eq!(domain_to_ascii("\u{4f8b}\u{3048}.jp"), "xn--r8jz45g.jp");
}

#[test]
fn cached_values_are_found_until_they_expire() {
    let mut c: TtlLru<u32> = TtlLru::new(3);
    assert_eq!(c.capacity, 16);
    c.set("a".into(), 1, Some(10), 100);
    assert_eq!(c.get("a", 100), Some(1));
    assert_eq!(c.get("a", 110), Some(1));
    assert_eq!(c.get("a", 111), None);
    assert_eq!(c.items.len(), 0);
    c.set("a".into(), 2, None, 0);
    c.set("a".into(), 3, None, 0);
    assert_eq!(c.items.len(), 1);
    assert_eq!(c.get("a", 600_000), Some(3));
    assert_eq!(c.get("a", 600_001), None);
    for i in 0..40u32 {
        c.set(format!("k{i}"), i, None, 0);
        assert_eq!(c.get(&format!("k{i}"), 0), Some(i));
        assert!(c.items.len() <= 16);
    }
}
