//! Rules: what is reached directly, through the proxy or not at all.

use std::io::Read;

use vstd::hash_map::StringHashMap;
use vstd::prelude::*;

use crate::codec;
use crate::ip;
use crate::ip::{Ip, IpView};
use crate::text;
use crate::utils;
use crate::utils::TtlLru;

verus! {

#[derive(Clone, Copy, Debug, PartialEq, Eq, Structural)]
pub enum RuleAction {
    Reject,
    Direct,
    Proxy,
}

/// The action of a code.
pub open spec fn action_of(v: int) -> Option<RuleAction> {
    if v == 1 {
        Some(RuleAction::Reject)
    } else if v == 2 {
        Some(RuleAction::Direct)
    } else if v == 3 {
        Some(RuleAction::Proxy)
    } else {
        None
    }
}

impl RuleAction {
    pub fn from_u8(v: u8) -> (r: Option<Self>)
        ensures
            r == action_of(v as int),
    {
        match v {
            1 => Some(RuleAction::Reject),
            2 => Some(RuleAction::Direct),
            3 => Some(RuleAction::Proxy),
            _ => None,
        }
    }

    /// The name of the action.
    pub open spec fn label(self) -> Seq<char> {
        match self {
            RuleAction::Reject => "Reject"@,
            RuleAction::Direct => "Direct"@,
            RuleAction::Proxy => "Proxy"@,
        }
    }

    fn name(self) -> (r: &'static str)
        ensures
            r@ == self.label(),
    {
        match self {
            RuleAction::Reject => "Reject",
            RuleAction::Direct => "Direct",
            RuleAction::Proxy => "Proxy",
        }
    }
}

// ---- addresses ----
/// Addresses of this machine and of local networks.
pub open spec fn local_ip(i: IpView) -> bool {
    match i {
        IpView::V4(b) => {
            ||| b[0] == 127
            ||| b[0] == 10
            ||| b[0] == 172 && 16 <= b[1] <= 31
            ||| b[0] == 192 && b[1] == 168
            ||| b[0] == 169 && b[1] == 254
            ||| b[0] == 100 && 64 <= b[1] <= 127
            ||| b == seq![0u8, 0u8, 0u8, 0u8]
        },
        IpView::V6(b) => {
            ||| b == ip::zeros(15).push(1u8)
            ||| b[0] == 0xfe && 0x80 <= b[1] <= 0xbf
            ||| b[0] == 0xff
            ||| b[0] == 0xfc || b[0] == 0xfd
        },
    }
}

pub open spec fn ip_action(i: IpView) -> RuleAction {
    if local_ip(i) {
        RuleAction::Direct
    } else {
        RuleAction::Proxy
    }
}

/// Local addresses are reached directly, all others through the proxy.
pub fn action_for_ip(ip: Ip) -> (r: RuleAction)
    ensures
        r == ip_action(ip@),
{
    let local = match ip {
        Ip::V4(b) => {
            let none = b[0] == 0 && b[1] == 0 && b[2] == 0 && b[3] == 0;
            proof {
                if none {
                    assert(b@ =~= seq![0u8, 0u8, 0u8, 0u8]);
                }
            }
            b[0] == 127 || b[0] == 10 || (b[0] == 172 && 16 <= b[1] && b[1] <= 31) || (b[0] == 192
                && b[1] == 168) || (b[0] == 169 && b[1] == 254) || (b[0] == 100 && 64 <= b[1]
                && b[1] <= 127) || none
        },
        Ip::V6(b) => {
            let mut zeros: bool = true;
            let mut i: usize = 0;
            while i < 15
                invariant
                    i <= 15,
                    zeros == (forall|j: int| 0 <= j < i ==> b@[j] == 0),
                decreases 15 - i,
            {
                if b[i] != 0 {
                    zeros = false;
                }
                i += 1;
            }
            let loopback = zeros && b[15] == 1;
            proof {
                let one = ip::zeros(15).push(1u8);
                if loopback {
                    assert(b@ =~= one);
                } else if b@ == one {
                    assert(forall|j: int| 0 <= j < 15 ==> one[j] == 0);
                    assert(one[15] == 1);
                }
            }
            loopback || (b[0] == 0xfe && 0x80 <= b[1] && b[1] <= 0xbf) || b[0] == 0xff || b[0]
                == 0xfc || b[0] == 0xfd
        },
    };
    if local {
        RuleAction::Direct
    } else {
        RuleAction::Proxy
    }
}

// ---- host and port ----
pub open spec fn count_char(s: Seq<char>, c: char) -> nat
    decreases s.len(),
{
    if s.len() == 0 {
        0
    } else {
        count_char(s.drop_last(), c) + (if s.last() == c {
            1nat
        } else {
            0nat
        })
    }
}

fn count(s: &[char], c: char) -> (r: usize)
    ensures
        r == count_char(s@, c),
{
    let mut n: usize = 0;
    let mut i: usize = 0;
    while i < s.len()
        invariant
            i <= s@.len(),
            n <= i,
            n == count_char(s@.take(i as int), c),
        decreases s@.len() - i,
    {
        assert(s@.take(i + 1).drop_last() =~= s@.take(i as int));
        if s[i] == c {
            n += 1;
        }
        i += 1;
    }
    assert(s@.take(i as int) =~= s@);
    n
}

/// Host and port of an authority that has both: an address in brackets before
/// a colon, or a name before the only colon.
pub open spec fn host_port(a: Seq<char>) -> Option<(Seq<char>, Seq<char>)> {
    if a.len() > 0 && a[0] == '[' {
        match text::cut(a, ']') {
            Some((h, rest)) => if rest.len() > 1 && rest[0] == ':' {
                Some((h.skip(1), rest.skip(1)))
            } else {
                None
            },
            None => None,
        }
    } else if count_char(a, ':') == 1 {
        match text::cut_last(a, ':') {
            Some((h, p)) => if h.len() > 0 && p.len() > 0 {
                Some((h, p))
            } else {
                None
            },
            None => None,
        }
    } else {
        None
    }
}

fn split_authority<'a>(a: &'a [char]) -> (r: Option<(&'a [char], &'a [char])>)
    ensures
        text::opt_pair(r) == host_port(a@),
{
    if a.len() > 0 && a[0] == '[' {
        match text::split_once(a, ']') {
            Some((h, rest)) => {
                let n: usize = rest.len();
                if n > 1 && rest[0] == ':' {
                    proof {
                        text::lemma_sep_from(a@, seq![']'], 0);
                        assert(seq![']'][0] == ']');
                        assert(h@.len() > 0) by {
                            let i = text::sep_from(a@, seq![']'], 0)->0;
                            assert(a@[i] == ']');
                        }
                    }
                    let m: usize = h.len();
                    let host = &h[1..m];
                    let port = &rest[1..n];
                    assert(host@ =~= h@.skip(1));
                    assert(port@ =~= rest@.skip(1));
                    Some((host, port))
                } else {
                    None
                }
            },
            None => None,
        }
    } else if count(a, ':') == 1 {
        match text::rsplit_once(a, ':') {
            Some((h, p)) => if h.len() > 0 && p.len() > 0 {
                Some((h, p))
            } else {
                None
            },
            None => None,
        }
    } else {
        None
    }
}

pub fn try_split_host_port(authority: &str) -> (r: Option<(String, String)>)
    ensures
        (match r {
            Some((h, p)) => Some((h@, p@)),
            None => None,
        }) == host_port(authority@),
{
    let c = text::chars_of(authority);
    match split_authority(c.as_slice()) {
        Some((h, p)) => Some((text::string_of(h), text::string_of(p))),
        None => None,
    }
}

/// Host and port with a colon between them; a host with colons gets brackets.
pub open spec fn joined(h: Seq<char>, p: Seq<char>) -> Seq<char> {
    if h.contains(':') && h[0] != '[' {
        seq!['['] + h + seq![']', ':'] + p
    } else {
        h + seq![':'] + p
    }
}

fn join_chars(h: &[char], p: &[char]) -> (r: Vec<char>)
    ensures
        r@ == joined(h@, p@),
{
    let mut r: Vec<char> = Vec::new();
    if text::one_of(':', h) && h[0] != '[' {
        r.push('[');
        text::append(&mut r, h);
        r.push(']');
        r.push(':');
        text::append(&mut r, p);
        assert(r@ =~= seq!['['] + h@ + seq![']', ':'] + p@);
    } else {
        text::append(&mut r, h);
        r.push(':');
        text::append(&mut r, p);
        assert(r@ =~= h@ + seq![':'] + p@);
    }
    r
}

pub fn join_host_port(host: &str, port: &str) -> (r: String)
    ensures
        r@ == joined(host@, port@),
{
    let h = text::chars_of(host);
    let p = text::chars_of(port);
    let r = join_chars(h.as_slice(), p.as_slice());
    text::string_of(r.as_slice())
}

/// An authority with its port, or with a default one where it has none.
pub open spec fn ported(authority: Seq<char>, port: Seq<char>) -> Option<Seq<char>> {
    let a = text::trimmed(authority);
    let host = text::without_any(a, "[]"@);
    match host_port(a) {
        Some((h, p)) => Some(joined(h, p)),
        None => if host.len() == 0 {
            None
        } else {
            Some(joined(host, port))
        },
    }
}

pub fn with_port(authority: &str, default_port: &str) -> (r: Option<String>)
    ensures
        text::opt_view(r) == ported(authority@, default_port@),
{
    let c = text::chars_of(authority);
    let a = text::trim(c.as_slice());
    if let Some((h, p)) = split_authority(a) {
        let r = join_chars(h, p);
        return Some(text::string_of(r.as_slice()));
    }
    let host = text::trim_any(a, "[]");
    if host.len() == 0 {
        return None;
    }
    let p = text::chars_of(default_port);
    let r = join_chars(host, p.as_slice());
    Some(text::string_of(r.as_slice()))
}

// ---- the rule database ----
/// What a database file holds at `off`: `n` records, each a key of a given
/// length and a byte. Later records replace earlier ones with the same key.
pub open spec fn records_at(
    raw: Seq<u8>,
    off: int,
    n: nat,
    m: Map<Seq<char>, u8>,
) -> Result<Map<Seq<char>, u8>, Seq<char>>
    decreases n,
{
    if n == 0 {
        Ok(m)
    } else if off + 2 > raw.len() {
        Err("rules.bin truncated"@)
    } else {
        let len = codec::be16(raw[off + 1], raw[off]);
        if off + 2 + len + 1 > raw.len() {
            Err("rules.bin truncated key"@)
        } else {
            records_at(
                raw,
                off + 3 + len,
                (n - 1) as nat,
                m.insert(
                    codec::utf8_text(raw.subrange(off + 2, off + 2 + len)),
                    raw[off + 2 + len],
                ),
            )
        }
    }
}

/// The records of a database file.
pub open spec fn file_records(raw: Seq<u8>) -> Result<Map<Seq<char>, u8>, Seq<char>> {
    if raw.len() < 9 || raw.take(5) != seq![0x43u8, 0x46u8, 0x57u8, 0x52u8, 1u8] {
        Err("rules.bin: bad magic"@)
    } else {
        records_at(
            raw,
            9,
            codec::be32(raw[8], raw[7], raw[6], raw[5]) as nat,
            Map::empty(),
        )
    }
}

/// The labels of a domain.
pub open spec fn labels_of(domain: Seq<char>) -> Seq<Seq<char>> {
    text::pieces(domain, "."@).filter(|s: Seq<char>| s.len() > 0)
}

/// The key of the last `k` labels: they stand in reverse order with a
/// separator between them.
pub open spec fn suffix_key(labels: Seq<Seq<char>>, k: nat) -> Seq<char>
    decreases k,
{
    if k == 0 {
        Seq::empty()
    } else if k == 1 {
        labels[labels.len() - 1]
    } else {
        suffix_key(labels, (k - 1) as nat) + seq!['\u{1}'] + labels[labels.len() - k]
    }
}

/// Whether a record of the last `k` labels applies to the whole domain: it is
/// for a suffix, or it is for exactly this domain.
pub open spec fn applies(m: Map<Seq<char>, u8>, labels: Seq<Seq<char>>, k: nat) -> bool {
    let key = suffix_key(labels, k);
    m.contains_key(key) && (m[key] >= 0x80 || k == labels.len())
}

/// The action of the longest of the first `k` suffixes that applies.
pub open spec fn best_action(
    m: Map<Seq<char>, u8>,
    labels: Seq<Seq<char>>,
    k: nat,
) -> Option<RuleAction>
    decreases k,
{
    if k == 0 {
        None
    } else if applies(m, labels, k) {
        action_of(m[suffix_key(labels, k)] as int % 128)
    } else {
        best_action(m, labels, (k - 1) as nat)
    }
}

/// The action of a domain: the one of its longest suffix that has one, else
/// the proxy.
pub open spec fn domain_action(m: Map<Seq<char>, u8>, domain: Seq<char>) -> RuleAction {
    let labels = labels_of(domain);
    match best_action(m, labels, labels.len()) {
        Some(a) => a,
        None => RuleAction::Proxy,
    }
}

/// The action of a host, which may be a name in any form or an address.
pub open spec fn host_action(m: Map<Seq<char>, u8>, host: Seq<char>) -> RuleAction {
    let d = utils::ascii_host(host);
    match ip::ip_of(d) {
        Some(i) => ip_action(i),
        None => domain_action(m, d),
    }
}

/// The host of an authority that may have a port and brackets.
pub open spec fn bare_host(a: Seq<char>) -> Seq<char> {
    text::without_any(
        text::trimmed(
            match host_port(a) {
                Some((h, _)) => h,
                None => a,
            },
        ),
        "[]"@,
    )
}

/// The action of an authority.
pub open spec fn route_action(m: Map<Seq<char>, u8>, a: Seq<char>) -> RuleAction {
    let h = bare_host(a);
    match ip::ip_of(h) {
        Some(i) => ip_action(i),
        None => host_action(m, h),
    }
}

/// A domain that a usable database has to route in a known way.
pub open spec fn checked_domain(i: int) -> (Seq<char>, RuleAction) {
    if i == 0 {
        ("www.baidu.com"@, RuleAction::Direct)
    } else if i == 1 {
        ("www.google.com"@, RuleAction::Proxy)
    } else if i == 2 {
        ("www.gstatic.com"@, RuleAction::Proxy)
    } else {
        ("fonts.gstatic.com"@, RuleAction::Proxy)
    }
}

/// The complaint about the first known domain, from number `i` on, that is
/// routed otherwise.
pub open spec fn complaint_from(m: Map<Seq<char>, u8>, i: int) -> Option<Seq<char>>
    decreases 4 - i,
{
    if i >= 4 {
        None
    } else {
        let (host, want) = checked_domain(i);
        let got = domain_action(m, host);
        if got != want {
            Some(
                "rules self-check: "@ + host + " got "@ + got.label() + " want "@ + want.label(),
            )
        } else {
            complaint_from(m, i + 1)
        }
    }
}

/// The rules by domain, with a cache of what was decided.
pub struct RuleDb {
    pub records: StringHashMap<u8>,
    pub cache: TtlLru<RuleAction>,
}

fn nonempty_labels<'a>(domain: &'a [char]) -> (r: Vec<&'a [char]>)
    ensures
        text::texts(r@) == labels_of(domain@),
{
    let parts = text::split(domain, ".");
    let ghost ps = text::texts(parts@);
    let ghost keep = |s: Seq<char>| s.len() > 0;
    let mut r: Vec<&'a [char]> = Vec::new();
    let mut i: usize = 0;
    proof {
        reveal(Seq::filter);
        assert(text::texts(r@) =~= ps.take(0).filter(keep));
    }
    while i < parts.len()
        invariant
            i <= parts@.len(),
            ps == text::texts(parts@),
            keep == (|s: Seq<char>| s.len() > 0),
            text::texts(r@) == ps.take(i as int).filter(keep),
        decreases parts@.len() - i,
    {
        let ghost before = text::texts(r@);
        proof {
            assert(ps.take(i + 1).drop_last() =~= ps.take(i as int));
            assert(ps.take(i + 1).last() == parts@[i as int]@);
            reveal(Seq::filter);
        }
        if parts[i].len() > 0 {
            r.push(parts[i]);
            assert(text::texts(r@) =~= before.push(parts@[i as int]@));
        }
        i += 1;
    }
    assert(ps.take(i as int) =~= ps);
    r
}

/// What a cache holds once an entry for a name was put in, which takes the place of an
/// earlier one.
pub open spec fn remembered(
    c: TtlLru<RuleAction>,
    name: Seq<char>,
    e: utils::Cached<RuleAction>,
    now: u64,
) -> Seq<utils::Cached<RuleAction>> {
    let rest = match utils::slot_from(c.items@, name, 0) {
        Some(i) => c.items@.remove(i),
        None => c.items@,
    };
    utils::pruned(rest.push(e), c.capacity as nat, now)
}

/// What the cache holds once the action of a host was asked for: nothing new for an
/// address, for no host, and for a name whose action it holds and that is not stale;
/// else that action, put in last, with a name that it held before taken out.
pub open spec fn cache_follows(
    before: TtlLru<RuleAction>,
    after: TtlLru<RuleAction>,
    host: Seq<char>,
    action: RuleAction,
    now: u64,
) -> bool {
    let d = utils::ascii_host(host);
    let slot = utils::slot_from(before.items@, d, 0);
    &&& after.capacity == before.capacity
    &&& if d.len() == 0 || ip::ip_of(d) is Some || (slot is Some && now
        <= before.items@[slot->0].expire) {
        after.items@ == before.items@
    } else {
        exists|e: utils::Cached<RuleAction>|
            e.key@ == d && e.value == action && e.expire == now + utils::DEFAULT_TTL
                && after.items@ == #[trigger] remembered(before, d, e, now)
    }
}

/// Whether this comes of reading a database file.
pub open spec fn loads(raw: Seq<u8>, r: Result<RuleDb, String>) -> bool {
    match file_records(raw) {
        Err(m) => r is Err && r->Err_0@ == m,
        Ok(m) => match complaint_from(m, 0) {
            Some(c) => r is Err && r->Err_0@ == c,
            None => r is Ok && r->Ok_0.records@ == m && r->Ok_0.wf()
                && r->Ok_0.cache.items@.len() == 0,
        },
    }
}

impl RuleDb {
    /// The cache holds what the records say.
    pub open spec fn wf(self) -> bool {
        &&& self.cache.wf()
        &&& forall|i: int|
            0 <= i < self.cache.items@.len() ==> (#[trigger] self.cache.items@[i]).value
                == domain_action(self.records@, self.cache.items@[i].key@)
    }

    /// Reads a database file; it has to be whole and to route a few known
    /// domains as expected.
    pub fn load_bytes(raw: &[u8]) -> (r: Result<Self, String>)
        ensures
            loads(raw@, r),
    {
        let size: usize = raw.len();
        if size < 9 {
            return Err("rules.bin: bad magic".to_owned());
        }
        let magic = raw[0] == 0x43 && raw[1] == 0x46 && raw[2] == 0x57 && raw[3] == 0x52 && raw[4]
            == 1;
        proof {
            let want = seq![0x43u8, 0x46u8, 0x57u8, 0x52u8, 1u8];
            if magic {
                assert(raw@.take(5) =~= want);
            } else if raw@.take(5) == want {
                assert(raw@.take(5)[0] == want[0] && raw@.take(5)[1] == want[1] && raw@.take(5)[2]
                    == want[2] && raw@.take(5)[3] == want[3] && raw@.take(5)[4] == want[4]);
            }
        }
        if !magic {
            return Err("rules.bin: bad magic".to_owned());
        }
        let count: u32 = codec::read_be32(raw[8], raw[7], raw[6], raw[5]);
        let mut records: StringHashMap<u8> = StringHashMap::new();
        let mut off: usize = 9;
        let mut left: u32 = count;
        while left > 0
            invariant
                size == raw@.len(),
                9 <= off <= size,
                left <= count,
                file_records(raw@) == records_at(raw@, off as int, left as nat, records@),
            decreases left,
        {
            if size - off < 2 {
                return Err("rules.bin truncated".to_owned());
            }
            let len: usize = codec::read_be16(raw[off + 1], raw[off]) as usize;
            if size - off - 2 < len + 1 {
                return Err("rules.bin truncated key".to_owned());
            }
            let key = codec::utf8_lossy(&raw[off + 2..off + 2 + len]);
            records.insert(key, raw[off + 2 + len]);
            off = off + 3 + len;
            left -= 1;
        }
        let db = RuleDb { records, cache: TtlLru::new(4096) };
        match db.self_check() {
            Ok(_) => Ok(db),
            Err(e) => Err(e),
        }
    }

    /// Reads the database that counts: a file beside the program, where there is one,
    /// also where it is none that can be used; else the embedded one, extracted.
    pub fn load_default(sidecar: Option<&[u8]>, extracted: &[u8]) -> (r: Result<Self, String>)
        ensures
            loads(
                match sidecar {
                    Some(s) => s@,
                    None => extracted@,
                },
                r,
            ),
    {
        match sidecar {
            Some(s) => Self::load_bytes(s),
            None => Self::load_bytes(extracted),
        }
    }

    fn self_check(&self) -> (r: Result<(), String>)
        ensures
            match complaint_from(self.records@, 0) {
                Some(c) => r is Err && r->Err_0@ == c,
                None => r is Ok,
            },
    {
        reveal_with_fuel(complaint_from, 5);
        match self.check("www.baidu.com", RuleAction::Direct) {
            Ok(_) => {},
            Err(e) => return Err(e),
        }
        match self.check("www.google.com", RuleAction::Proxy) {
            Ok(_) => {},
            Err(e) => return Err(e),
        }
        match self.check("www.gstatic.com", RuleAction::Proxy) {
            Ok(_) => {},
            Err(e) => return Err(e),
        }
        self.check("fonts.gstatic.com", RuleAction::Proxy)
    }

    fn check(&self, host: &str, want: RuleAction) -> (r: Result<(), String>)
        ensures
            ({
                let got = domain_action(self.records@, host@);
                match r {
                    Ok(_) => got == want,
                    Err(m) => got != want && m@ == "rules self-check: "@ + host@ + " got "@
                        + got.label() + " want "@ + want.label(),
                }
            }),
    {
        let c = text::chars_of(host);
        let got = self.match_domain_uncached(c.as_slice());
        if got == want {
            return Ok(());
        }
        let mut m: Vec<char> = Vec::new();
        text::append_str(&mut m, "rules self-check: ");
        text::append_str(&mut m, host);
        text::append_str(&mut m, " got ");
        text::append_str(&mut m, got.name());
        text::append_str(&mut m, " want ");
        text::append_str(&mut m, want.name());
        assert(m@ =~= "rules self-check: "@ + host@ + " got "@ + got.label() + " want "@
            + want.label());
        Err(text::string_of(m.as_slice()))
    }

    fn match_domain_uncached(&self, domain: &[char]) -> (r: RuleAction)
        ensures
            r == domain_action(self.records@, domain@),
    {
        let labels = nonempty_labels(domain);
        let ghost ls = text::texts(labels@);
        let n: usize = labels.len();
        let mut best: Option<RuleAction> = None;
        let mut key: Vec<char> = Vec::new();
        let mut k: usize = 0;
        assert(key@ =~= suffix_key(ls, 0));
        while k < n
            invariant
                k <= n,
                n == labels@.len(),
                ls == text::texts(labels@),
                key@ == suffix_key(ls, k as nat),
                best == best_action(self.records@, ls, k as nat),
            decreases n - k,
        {
            if k > 0 {
                key.push('\u{1}');
            }
            text::append(&mut key, labels[n - 1 - k]);
            k += 1;
            proof {
                assert(ls[ls.len() - k] == labels@[n - k]@);
                if k == 1 {
                    assert(key@ =~= ls[ls.len() - 1]);
                } else {
                    assert(key@ =~= suffix_key(ls, (k - 1) as nat) + seq!['\u{1}'] + ls[ls.len()
                        - k]);
                }
            }
            let s = text::string_of(key.as_slice());
            if let Some(packed) = self.records.get(s.as_str()) {
                let p: u8 = *packed;
                if p >= 0x80 || k == n {
                    best = RuleAction::from_u8(p % 128);
                }
            }
        }
        match best {
            Some(a) => a,
            None => RuleAction::Proxy,
        }
    }

    /// The action of a host. What was decided before is found in the cache,
    /// which never changes the answer. Times are in milliseconds.
    pub fn match_domain(&mut self, domain: &str, now: u64) -> (r: RuleAction)
        requires
            old(self).wf(),
            now + utils::DEFAULT_TTL <= u64::MAX,
        ensures
            r == host_action(old(self).records@, domain@),
            final(self).records@ == old(self).records@,
            final(self).wf(),
            cache_follows(old(self).cache, final(self).cache, domain@, r, now),
    {
        let d = utils::domain_to_ascii(domain);
        let c = text::chars_of(d.as_str());
        if c.len() == 0 {
            proof {
                assert(c@ =~= Seq::<char>::empty());
                lemma_empty_domain(self.records@);
            }
            return RuleAction::Proxy;
        }
        if let Some(i) = ip::parse_ip(c.as_slice()) {
            return action_for_ip(i);
        }
        let ghost start = self.cache;
        let ghost before = self.cache.items@;
        proof {
            utils::lemma_slot(before, c@, 0);
        }
        if let Some(a) = self.cache.get(d.as_str(), now) {
            return a;
        }
        let a = self.match_domain_uncached(c.as_slice());
        proof {
            assert forall|i: int| 0 <= i < self.cache.items@.len() implies (
            #[trigger] self.cache.items@[i]).value == domain_action(
                self.records@,
                self.cache.items@[i].key@,
            ) by {
                if self.cache.items@ != before {
                    let k = utils::slot_from(before, c@, 0)->0;
                    assert(self.cache.items@[i] == before[if i < k {
                        i
                    } else {
                        i + 1
                    }]);
                }
            }
        }
        let ghost mid = self.cache.items@;
        proof {
            utils::lemma_slot(mid, c@, 0);
        }
        self.cache.set(d, a, None, now);
        proof {
            let rest = match utils::slot_from(mid, c@, 0) {
                Some(i) => mid.remove(i),
                None => mid,
            };
            let e = utils::Cached { key: d, value: a, expire: (now + utils::DEFAULT_TTL) as u64 };
            if mid != before {
                let k = utils::slot_from(before, c@, 0)->0;
                assert forall|i: int| 0 <= i < mid.len() implies (#[trigger] mid[i]).key@
                    != c@ by {
                    assert(mid[i] == before[if i < k {
                        i
                    } else {
                        i + 1
                    }]);
                }
                assert(rest == mid);
            }
            assert(self.cache.items@ == remembered(start, c@, e, now));
            utils::lemma_pruned_members(rest.push(e), self.cache.capacity as nat, now);
            assert forall|i: int| 0 <= i < self.cache.items@.len() implies (
            #[trigger] self.cache.items@[i]).value == domain_action(
                self.records@,
                self.cache.items@[i].key@,
            ) by {
                let x = self.cache.items@[i];
                assert(rest.push(e).contains(x));
                let j = choose|j: int| 0 <= j < rest.push(e).len() && rest.push(e)[j] == x;
                if j < rest.len() {
                    if let Some(k) = utils::slot_from(mid, c@, 0) {
                        assert(rest[j] == mid[if j < k {
                            j
                        } else {
                            j + 1
                        }]);
                    }
                }
            }
        }
        a
    }

    /// The action of an authority with or without a port.
    pub fn decide_route(&mut self, host_port: &str, now: u64) -> (r: RuleAction)
        requires
            old(self).wf(),
            now + utils::DEFAULT_TTL <= u64::MAX,
        ensures
            r == route_action(old(self).records@, host_port@),
            final(self).records@ == old(self).records@,
            final(self).wf(),
            if ip::ip_of(bare_host(host_port@)) is Some {
                final(self).cache == old(self).cache
            } else {
                cache_follows(old(self).cache, final(self).cache, bare_host(host_port@), r, now)
            },
    {
        let c = text::chars_of(host_port);
        let h: &[char] = match split_authority(c.as_slice()) {
            Some((h, _)) => h,
            None => c.as_slice(),
        };
        let host = text::trim_any(text::trim(h), "[]");
        if let Some(i) = ip::parse_ip(host) {
            return action_for_ip(i);
        }
        let s = text::string_of(host);
        self.match_domain(s.as_str(), now)
    }
}

proof fn lemma_empty_domain(m: Map<Seq<char>, u8>)
    ensures
        domain_action(m, Seq::empty()) == RuleAction::Proxy,
        ip::ip_of(Seq::empty()) is None,
{
    let e = Seq::<char>::empty();
    reveal(Seq::filter);
    assert(text::pieces(e, "."@) =~= seq![e]);
    let keep = |s: Seq<char>| s.len() > 0;
    let one = seq![e];
    assert(one.drop_last() =~= Seq::<Seq<char>>::empty());
    assert(one.drop_last().filter(keep) =~= Seq::<Seq<char>>::empty());
    assert(one.filter(keep) == one.drop_last().filter(keep));
    assert(labels_of(e) =~= Seq::<Seq<char>>::empty());
    reveal_strlit("::");
    assert(text::found(e, "::"@) is None);
}

// ---- the embedded database ----
/// What gzip data holds, if it is whole.
pub uninterp spec fn gunzipped(b: Seq<u8>) -> Option<Seq<u8>>;

/// `flate2::read::GzDecoder` read to its end. The content depends on the bytes
/// alone; it is named, not described.
#[verifier::external_body]
fn gunzip(b: &[u8]) -> (r: Option<Vec<u8>>)
    ensures
        codec::opt_bytes(r) == gunzipped(b@),
{
    let mut plain = Vec::new();
    flate2::read::GzDecoder::new(b).read_to_end(&mut plain).ok()?;
    Some(plain)
}

/// What is to be done with the extracted database.
#[derive(Debug)]
pub enum Extract {
    /// The file on disk is the same.
    Keep,
    /// The file has to be written.
    Write(Vec<u8>),
}

/// Whether extracted data has to be written, given what is on disk.
pub fn plan_extract(plain: Vec<u8>, on_disk: Option<&[u8]>) -> (r: Result<Extract, String>)
    ensures
        match r {
            Err(m) => plain@.len() == 0 && m@
                == "Embedded rules database is empty after GZip decompress."@,
            Ok(Extract::Keep) => plain@.len() > 0 && on_disk is Some && on_disk->0@ == plain@,
            Ok(Extract::Write(b)) => plain@.len() > 0 && b@ == plain@ && !(on_disk is Some
                && on_disk->0@ == plain@),
        },
{
    if plain.len() == 0 {
        return Err("Embedded rules database is empty after GZip decompress.".to_owned());
    }
    if let Some(d) = on_disk {
        if codec::same_bytes(d, plain.as_slice()) {
            return Ok(Extract::Keep);
        }
    }
    Ok(Extract::Write(plain))
}

/// What is to be done with an embedded database, given what is on disk.
/// Nothing where the data cannot be decompressed.
pub fn extract_rules(gz: &[u8], on_disk: Option<&[u8]>) -> (r: Option<Result<Extract, String>>)
    ensures
        match gunzipped(gz@) {
            None => r is None,
            Some(p) => match r {
                None => false,
                Some(Err(m)) => p.len() == 0 && m@
                    == "Embedded rules database is empty after GZip decompress."@,
                Some(Ok(Extract::Keep)) => p.len() > 0 && on_disk is Some && on_disk->0@ == p,
                Some(Ok(Extract::Write(b))) => p.len() > 0 && b@ == p && !(on_disk is Some
                    && on_disk->0@ == p),
            },
        },
{
    match gunzip(gz) {
        Some(p) => Some(plan_extract(p, on_disk)),
        None => None,
    }
}

// ---- laws ----
proof fn lemma_count_none(s: Seq<char>, c: char)
    requires
        !s.contains(c),
    ensures
        count_char(s, c) == 0,
    decreases s.len(),
{
    if s.len() > 0 {
        assert(s[s.len() - 1] != c);
        assert forall|x: char| s.drop_last().contains(x) implies s.contains(x) by {
            let i = choose|i: int| 0 <= i < s.drop_last().len() && s.drop_last()[i] == x;
            assert(s[i] == x);
        }
        lemma_count_none(s.drop_last(), c);
    }
}

proof fn lemma_count_concat(a: Seq<char>, b: Seq<char>, c: char)
    ensures
        count_char(a + b, c) == count_char(a, c) + count_char(b, c),
    decreases b.len(),
{
    if b.len() == 0 {
        assert(a + b =~= a);
    } else {
        assert((a + b).drop_last() =~= a + b.drop_last());
        lemma_count_concat(a, b.drop_last(), c);
    }
}

proof fn lemma_last_at(s: Seq<char>, c: char, n: int, i: int)
    requires
        0 <= i < n <= s.len(),
        s[i] == c,
        forall|k: int| i < k < n ==> s[k] != c,
    ensures
        text::last_at(s, c, n) == Some(i),
    decreases n,
{
    if n - 1 > i {
        lemma_last_at(s, c, n - 1, i);
    }
}

proof fn lemma_sep_at(s: Seq<char>, c: char, j: int, i: int)
    requires
        0 <= j <= i < s.len(),
        s[i] == c,
        forall|k: int| j <= k < i ==> s[k] != c,
    ensures
        text::sep_from(s, seq![c], j) == Some(i),
    decreases i - j,
{
    assert(seq![c].contains(c)) by {
        assert(seq![c][0] == c);
    }
    if j < i {
        assert(!seq![c].contains(s[j]));
        lemma_sep_at(s, c, j + 1, i);
    }
}

/// Splitting a joined host and port gives them back. A host begins with no bracket; one
/// with a colon holds none that closes, and behind one without, the port has no colon.
pub proof fn law_split_undoes_join(h: Seq<char>, p: Seq<char>)
    requires
        h.len() > 0,
        p.len() > 0,
        h[0] != '[',
        h.contains(':') ==> !h.contains(']'),
        !h.contains(':') ==> !p.contains(':'),
    ensures
        host_port(joined(h, p)) == Some((h, p)),
{
    let j = joined(h, p);
    if h.contains(':') {
        let i = (1 + h.len()) as int;
        assert forall|k: int| 0 <= k < i implies j[k] != ']' by {
            if k > 0 {
                assert(j[k] == h[k - 1]);
                if j[k] == ']' {
                    assert(h.contains(']'));
                }
            }
        }
        lemma_sep_at(j, ']', 0, i);
        assert(j.take(i).skip(1) =~= h);
        assert(j.skip(i + 1).skip(1) =~= p);
        assert(j.skip(i + 1)[0] == ':');
    } else {
        let i = h.len() as int;
        lemma_count_none(h, ':');
        lemma_count_none(p, ':');
        lemma_count_concat(h, seq![':'], ':');
        lemma_count_concat(h + seq![':'], p, ':');
        assert(seq![':'].drop_last() =~= Seq::<char>::empty());
        assert(count_char(seq![':'], ':') == 1) by {
            assert(count_char(Seq::<char>::empty(), ':') == 0);
        }
        assert(j[0] == h[0]);
        assert forall|k: int| i < k < j.len() implies j[k] != ':' by {
            assert(j[k] == p[k - i - 1]);
            if j[k] == ':' {
                assert(p.contains(':'));
            }
        }
        lemma_last_at(j, ':', j.len() as int, i);
        assert(j.take(i) =~= h);
        assert(j.skip(i + 1) =~= p);
    }
}

/// An exact record decides its own domain, whatever shorter suffixes say.
pub proof fn law_exact_record_wins(m: Map<Seq<char>, u8>, domain: Seq<char>)
    requires
        labels_of(domain).len() > 0,
        m.contains_key(suffix_key(labels_of(domain), labels_of(domain).len())),
        action_of(m[suffix_key(labels_of(domain), labels_of(domain).len())] as int % 128) is Some,
    ensures
        Some(domain_action(m, domain)) == action_of(
            m[suffix_key(labels_of(domain), labels_of(domain).len())] as int % 128,
        ),
{
}

/// Where no record of a suffix of a domain applies, the domain goes to the proxy.
pub proof fn law_unknown_domain_is_proxied(m: Map<Seq<char>, u8>, domain: Seq<char>)
    requires
        forall|k: nat|
            1 <= k <= labels_of(domain).len() ==> !#[trigger] applies(m, labels_of(domain), k),
    ensures
        domain_action(m, domain) == RuleAction::Proxy,
{
    lemma_no_match(m, labels_of(domain), labels_of(domain).len());
}

proof fn lemma_no_match(m: Map<Seq<char>, u8>, labels: Seq<Seq<char>>, k: nat)
    requires
        k <= labels.len(),
        forall|j: nat| 1 <= j <= labels.len() ==> !#[trigger] applies(m, labels, j),
    ensures
        best_action(m, labels, k) is None,
    decreases k,
{
    if k > 0 {
        assert(!applies(m, labels, k));
        lemma_no_match(m, labels, (k - 1) as nat);
    }
}

/// The longest suffix of a domain whose record applies decides it; where the action of
/// that record is none that is known, the domain goes to the proxy.
pub proof fn law_longest_suffix_wins(m: Map<Seq<char>, u8>, domain: Seq<char>, k: nat)
    requires
        1 <= k <= labels_of(domain).len(),
        applies(m, labels_of(domain), k),
        forall|j: nat|
            k < j <= labels_of(domain).len() ==> !#[trigger] applies(m, labels_of(domain), j),
    ensures
        domain_action(m, domain) == (match action_of(
            m[suffix_key(labels_of(domain), k)] as int % 128,
        ) {
            Some(a) => a,
            None => RuleAction::Proxy,
        }),
{
    lemma_longest(m, labels_of(domain), k, labels_of(domain).len());
}

proof fn lemma_longest(m: Map<Seq<char>, u8>, labels: Seq<Seq<char>>, k: nat, n: nat)
    requires
        1 <= k <= n <= labels.len(),
        applies(m, labels, k),
        forall|j: nat| k < j <= labels.len() ==> !#[trigger] applies(m, labels, j),
    ensures
        best_action(m, labels, n) == action_of(m[suffix_key(labels, k)] as int % 128),
    decreases n,
{
    if n > k {
        assert(!applies(m, labels, n));
        lemma_longest(m, labels, k, (n - 1) as nat);
    }
}

/// Spellings of a host that differ in the case of ASCII letters get the same action.
pub proof fn law_letter_case_does_not_count(m: Map<Seq<char>, u8>, a: Seq<char>, b: Seq<char>)
    requires
        text::same_nocase(a, b),
    ensures
        host_action(m, a) == host_action(m, b),
{
    utils::law_case_is_dropped(a, b);
}

/// A dot behind a host changes nothing of its action.
pub proof fn law_last_dot_does_not_count(m: Map<Seq<char>, u8>, a: Seq<char>)
    requires
        a.len() > 0 ==> !text::is_white(a.last()),
    ensures
        host_action(m, a.push('.')) == host_action(m, a),
{
    utils::law_last_dot_is_dropped(a);
}

/// The record of a whole domain decides by its code: 1 rejects, 2 is direct and 3 goes
/// through the proxy; the mark of a suffix, 0x80, does not change that.
pub proof fn law_record_codes(m: Map<Seq<char>, u8>, domain: Seq<char>)
    requires
        labels_of(domain).len() > 0,
        m.contains_key(suffix_key(labels_of(domain), labels_of(domain).len())),
    ensures
        ({
            let v = m[suffix_key(labels_of(domain), labels_of(domain).len())];
            &&& (v == 1 || v == 0x81 ==> domain_action(m, domain) == RuleAction::Reject)
            &&& (v == 2 || v == 0x82 ==> domain_action(m, domain) == RuleAction::Direct)
            &&& (v == 3 || v == 0x83 ==> domain_action(m, domain) == RuleAction::Proxy)
        }),
{
}

/// The key of a domain is its labels from the last to the first, with the character 1
/// between them.
pub proof fn law_key_of_labels(labels: Seq<Seq<char>>, k: nat)
    requires
        1 <= k < labels.len(),
    ensures
        suffix_key(labels, 1) == labels.last(),
        suffix_key(labels, k + 1) == suffix_key(labels, k) + seq!['\u{1}'] + labels[labels.len() - k
            - 1],
{
}

/// A file with one record: its mark, how many records it holds, the length of the key, the
/// key and the code; numbers have their low byte first.
pub proof fn law_file_reads_back(key: Seq<char>, code: u8, length: Seq<u8>)
    requires
        length.len() == 2,
        length[0] + length[1] * 256 == vstd::utf8::encode_utf8(key).len(),
    ensures
        file_records(
            seq![0x43u8, 0x46u8, 0x57u8, 0x52u8, 1u8, 1u8, 0u8, 0u8, 0u8] + length
                + vstd::utf8::encode_utf8(key) + seq![code],
        ) == Ok::<Map<Seq<char>, u8>, Seq<char>>(Map::empty().insert(key, code)),
{
    let b = vstd::utf8::encode_utf8(key);
    let raw = seq![0x43u8, 0x46u8, 0x57u8, 0x52u8, 1u8, 1u8, 0u8, 0u8, 0u8] + length + b + seq![code];
    let n = b.len() as int;
    vstd::utf8::encode_utf8_valid_utf8(key);
    vstd::utf8::encode_utf8_decode_utf8(key);
    assert(raw.take(5) =~= seq![0x43u8, 0x46u8, 0x57u8, 0x52u8, 1u8]);
    assert(raw[5] == 1 && raw[6] == 0 && raw[7] == 0 && raw[8] == 0);
    assert(raw[9] == length[0] && raw[10] == length[1]);
    assert(codec::be16(raw[10], raw[9]) == n);
    assert(raw.subrange(11, 11 + n) =~= b);
    assert(raw[11 + n] == code);
    let m = Map::<Seq<char>, u8>::empty().insert(key, code);
    assert(records_at(raw, 12 + n, 0, m) == Ok::<Map<Seq<char>, u8>, Seq<char>>(m));
}

/// The IPv4 addresses that are reached directly: 10.0.0.0/8, 172.16.0.0/12,
/// 192.168.0.0/16, 127.0.0.0/8, 169.254.0.0/16, 100.64.0.0/10 and 0.0.0.0; all others go
/// through the proxy.
pub proof fn law_local_networks(b: Seq<u8>)
    requires
        b.len() == 4,
    ensures
        ({
            let n = b[0] * 0x1000000 + b[1] * 0x10000 + b[2] * 0x100 + b[3];
            ip_action(IpView::V4(b)) == (if n / 0x1000000 == 10 || n / 0x100000 == 172 * 16 + 1 || n
                / 0x10000 == 192 * 256 + 168 || n / 0x1000000 == 127 || n / 0x10000 == 169 * 256
                + 254 || n / 0x400000 == 100 * 4 + 1 || n == 0 {
                RuleAction::Direct
            } else {
                RuleAction::Proxy
            })
        }),
{
    let n = b[0] * 0x1000000 + b[1] * 0x10000 + b[2] * 0x100 + b[3];
    assert(n / 0x1000000 == b[0]);
    assert(n / 0x10000 == b[0] * 256 + b[1]);
    assert(n / 0x100000 == b[0] * 16 + b[1] / 16);
    assert(n / 0x400000 == b[0] * 4 + b[1] / 64);
    if n == 0 {
        assert(b =~= seq![0u8, 0u8, 0u8, 0u8]);
    }
    if b == seq![0u8, 0u8, 0u8, 0u8] {
        assert(b[0] == 0 && b[1] == 0 && b[2] == 0 && b[3] == 0);
    }
}

/// An address is routed by its network, whatever the records say.
pub proof fn law_address_needs_no_record(m: Map<Seq<char>, u8>, host: Seq<char>, i: IpView)
    requires
        ip::ip_of(utils::ascii_host(host)) == Some(i),
    ensures
        host_action(m, host) == ip_action(i),
{
}

/// An authority without a port gets one; one with a port keeps it.
pub proof fn law_port_is_added(h: Seq<char>, p: Seq<char>, d: Seq<char>)
    requires
        h.len() > 0,
        p.len() > 0,
        forall|i: int|
            0 <= i < h.len() ==> (#[trigger] h[i]) != ':' && h[i] != '[' && h[i] != ']',
        !text::is_white(h[0]),
        !text::is_white(h.last()),
        forall|i: int| 0 <= i < p.len() ==> (#[trigger] p[i]) != ':',
        !text::is_white(p.last()),
    ensures
        ported(h, d) == Some(h + seq![':'] + d),
        ported(h + seq![':'] + p, d) == Some(h + seq![':'] + p),
{
    assert(!h.contains(':'));
    assert(!p.contains(':'));
    assert(text::trimmed(h) == h);
    let a = h + seq![':'] + p;
    assert(a[0] == h[0] && a.last() == p.last());
    assert(text::trimmed(a) == a);
    lemma_count_none(h, ':');
    assert(host_port(h) is None);
    reveal_strlit("[]");
    assert("[]"@ =~= seq!['[', ']']);
    assert(!"[]"@.contains(h[0]));
    assert(!"[]"@.contains(h.last()));
    assert(text::without_any(h, "[]"@) == h);
    law_split_undoes_join(h, p);
    assert(joined(h, p) == a);
}

/// A destination is routed by its host, whatever its port: a name by the records, and an
/// address by its network.
pub proof fn law_port_does_not_count(m: Map<Seq<char>, u8>, h: Seq<char>, p: Seq<char>)
    requires
        h.len() > 0,
        p.len() > 0,
        forall|i: int|
            0 <= i < h.len() ==> (#[trigger] h[i]) != ':' && h[i] != '[' && h[i] != ']',
        !text::is_white(h[0]),
        !text::is_white(h.last()),
        forall|i: int| 0 <= i < p.len() ==> (#[trigger] p[i]) != ':',
    ensures
        route_action(m, h + seq![':'] + p) == route_action(m, h),
        ip::ip_of(h) is None ==> route_action(m, h) == host_action(m, h),
        ip::ip_of(h) is Some && local_ip(ip::ip_of(h)->0) ==> route_action(m, h)
            == RuleAction::Direct,
        ip::ip_of(h) is Some && !local_ip(ip::ip_of(h)->0) ==> route_action(m, h)
            == RuleAction::Proxy,
{
    let e = Seq::<char>::empty();
    assert(!h.contains(':'));
    assert(!p.contains(':'));
    assert(joined(h, p) == h + seq![':'] + p);
    law_split_undoes_join(h, p);
    text::law_trim(e, h, e);
    lemma_count_none(h, ':');
    assert(host_port(h) is None);
    reveal_strlit("[]");
    assert("[]"@ =~= seq!['[', ']']);
    assert(!"[]"@.contains(h[0]));
    assert(!"[]"@.contains(h.last()));
    assert(text::without_any(h, "[]"@) == h);
}

/// Records are taken only where they route the domains that are checked as they should:
/// one directly, and three by the proxy.
pub proof fn law_checked_domains(m: Map<Seq<char>, u8>)
    ensures
        complaint_from(m, 0) is None <==> {
            &&& domain_action(m, "www.baidu.com"@) == RuleAction::Direct
            &&& domain_action(m, "www.google.com"@) == RuleAction::Proxy
            &&& domain_action(m, "www.gstatic.com"@) == RuleAction::Proxy
            &&& domain_action(m, "fonts.gstatic.com"@) == RuleAction::Proxy
        },
{
    reveal_with_fuel(complaint_from, 5);
}

/// The actions by number; there are no others.
pub proof fn law_action_numbers(v: int)
    ensures
        action_of(1) == Some(RuleAction::Reject),
        action_of(2) == Some(RuleAction::Direct),
        action_of(3) == Some(RuleAction::Proxy),
        v < 1 || v > 3 ==> action_of(v) is None,
{
}

} // verus!
