//! IP addresses and their text forms.

use vstd::prelude::*;

use crate::text;

verus! {

/// An IP address, by its octets.
#[derive(Clone, Copy, Debug, PartialEq, Eq)]
pub enum Ip {
    V4([u8; 4]),
    V6([u8; 16]),
}

/// The octets of an address as a sequence.
pub enum IpView {
    V4(Seq<u8>),
    V6(Seq<u8>),
}

impl View for Ip {
    type V = IpView;

    open spec fn view(&self) -> IpView {
        match self {
            Ip::V4(o) => IpView::V4(o@),
            Ip::V6(o) => IpView::V6(o@),
        }
    }
}

/// One part of a dotted address: a number below 256 without leading zeros.
pub open spec fn octet(s: Seq<char>) -> Option<int> {
    if s.len() > 1 && s[0] == '0' {
        None
    } else {
        text::digits_value(s, 255)
    }
}

/// The octets of a dotted IPv4 address.
pub open spec fn ipv4_of(s: Seq<char>) -> Option<Seq<u8>> {
    let p = text::pieces(s, "."@);
    if p.len() == 4 && (forall|i: int| 0 <= i < 4 ==> octet(#[trigger] p[i]) is Some) {
        Some(Seq::new(4, |i: int| octet(p[i])->0 as u8))
    } else {
        None
    }
}

/// A group of one to four hexadecimal digits.
pub open spec fn hextet(s: Seq<char>) -> Option<int> {
    if 1 <= s.len() <= 4 && (forall|i: int|
        0 <= i < s.len() ==> crate::codec::hex_digit(#[trigger] s[i]) is Some) {
        Some(hex_number(s))
    } else {
        None
    }
}

/// The number that hexadecimal digits write.
pub open spec fn hex_number(s: Seq<char>) -> int
    decreases s.len(),
{
    if s.len() == 0 {
        0
    } else {
        hex_number(s.drop_last()) * 16 + crate::codec::hex_digit(s.last())->0
    }
}

/// The octets of the groups of hexadecimal digits `p`; with `tail` the last
/// one may be a dotted IPv4 address, which stands for two groups.
pub open spec fn groups(p: Seq<Seq<char>>, tail: bool) -> Option<Seq<u8>>
    decreases p.len(),
{
    if p.len() == 0 {
        Some(Seq::empty())
    } else {
        match groups(p.drop_last(), false) {
            None => None,
            Some(head) => {
                if tail && ipv4_of(p.last()) is Some {
                    Some(head + ipv4_of(p.last())->0)
                } else {
                    match hextet(p.last()) {
                        Some(v) => Some(head + crate::codec::be16_bytes(v)),
                        None => None,
                    }
                }
            },
        }
    }
}

/// The octets of colon separated groups; no text is no group.
pub open spec fn group_list(s: Seq<char>, tail: bool) -> Option<Seq<u8>> {
    if s.len() == 0 {
        Some(Seq::empty())
    } else {
        groups(text::pieces(s, ":"@), tail)
    }
}

pub open spec fn zeros(n: nat) -> Seq<u8> {
    Seq::new(n, |i: int| 0u8)
}

/// The octets of an IPv6 address: eight groups, or fewer around one `::`,
/// which stands for at least one group of zeros.
pub open spec fn ipv6_of(s: Seq<char>) -> Option<Seq<u8>> {
    match text::found(s, "::"@) {
        None => match group_list(s, true) {
            Some(b) => if b.len() == 16 {
                Some(b)
            } else {
                None
            },
            None => None,
        },
        Some(i) => match (group_list(s.take(i), false), group_list(s.skip(i + 2), true)) {
            (Some(a), Some(b)) => if a.len() + b.len() <= 14 {
                Some(a + zeros((16 - a.len() - b.len()) as nat) + b)
            } else {
                None
            },
            _ => None,
        },
    }
}

/// The address that a text writes.
pub open spec fn ip_of(s: Seq<char>) -> Option<IpView> {
    match ipv4_of(s) {
        Some(o) => Some(IpView::V4(o)),
        None => match ipv6_of(s) {
            Some(o) => Some(IpView::V6(o)),
            None => None,
        },
    }
}

/// The lengths of addresses.
pub proof fn lemma_ip_lengths(s: Seq<char>)
    ensures
        match ip_of(s) {
            Some(IpView::V4(b)) => b.len() == 4,
            Some(IpView::V6(b)) => b.len() == 16,
            None => true,
        },
{
}

fn parse_octet(s: &[char]) -> (r: Option<u8>)
    ensures
        match r {
            Some(v) => octet(s@) == Some(v as int),
            None => octet(s@) is None,
        },
{
    if s.len() > 1 && s[0] == '0' {
        return None;
    }
    // A sign is no digit.
    if s.len() > 0 && s[0] == '+' {
        assert(!text::is_digit(s@[0]));
        return None;
    }
    match text::parse_unsigned(s, 255) {
        Some(v) => Some(v as u8),
        None => None,
    }
}

pub fn parse_ipv4(s: &[char]) -> (r: Option<[u8; 4]>)
    ensures
        match r {
            Some(o) => ipv4_of(s@) == Some(o@),
            None => ipv4_of(s@) is None,
        },
{
    let p = text::split(s, ".");
    let ghost ps = text::texts(p@);
    if p.len() != 4 {
        return None;
    }
    let mut o: [u8; 4] = [0, 0, 0, 0];
    let mut i: usize = 0;
    while i < 4
        invariant
            i <= 4,
            p@.len() == 4,
            ps == text::texts(p@),
            ps == text::pieces(s@, "."@),
            forall|j: int| 0 <= j < i ==> octet(#[trigger] ps[j]) == Some(o@[j] as int),
        decreases 4 - i,
    {
        match parse_octet(p[i]) {
            Some(v) => {
                o[i] = v;
            },
            None => {
                assert(octet(ps[i as int]) is None);
                return None;
            },
        }
        i += 1;
    }
    proof {
        assert(o@ =~= Seq::new(4, |i: int| octet(ps[i])->0 as u8));
    }
    Some(o)
}

fn parse_hextet(s: &[char]) -> (r: Option<u16>)
    ensures
        match r {
            Some(v) => hextet(s@) == Some(v as int),
            None => hextet(s@) is None,
        },
{
    if s.len() == 0 || s.len() > 4 {
        return None;
    }
    let mut v: u32 = 0;
    let mut i: usize = 0;
    let mut bound: u32 = 1;
    while i < s.len()
        invariant
            i <= s@.len() <= 4,
            forall|j: int| 0 <= j < i ==> crate::codec::hex_digit(#[trigger] s@[j]) is Some,
            v == hex_number(s@.take(i as int)),
            v < bound,
            bound == (if i == 0 { 1int } else if i == 1 { 16 } else if i == 2 { 256 } else if i == 3 { 4096 } else { 65536 }),
        decreases s@.len() - i,
    {
        match crate::codec::hex_value(s[i]) {
            Some(d) => {
                proof {
                    assert(s@.take(i + 1).drop_last() =~= s@.take(i as int));
                }
                v = v * 16 + d as u32;
                bound = bound * 16;
            },
            None => {
                return None;
            },
        }
        i += 1;
    }
    proof {
        assert(s@.take(i as int) =~= s@);
    }
    Some(v as u16)
}

proof fn lemma_groups_prefix(p: Seq<Seq<char>>, i: int, tail: bool)
    requires
        0 <= i < p.len(),
        groups(p.take(i + 1), false) is None,
        i + 1 < p.len() || !tail,
    ensures
        groups(p, tail) is None,
    decreases p.len() - i,
{
    if i + 1 < p.len() {
        assert(p.take(i + 2).drop_last() =~= p.take(i + 1));
        if i + 2 < p.len() {
            lemma_groups_prefix(p, i + 1, tail);
        } else {
            assert(p.take(i + 2) =~= p);
            assert(p.drop_last() =~= p.take(i + 1));
        }
    } else {
        assert(p.take(i + 1) =~= p);
    }
}

fn parse_groups(s: &[char], tail: bool) -> (r: Option<Vec<u8>>)
    ensures
        crate::codec::opt_bytes(r) == group_list(s@, tail),
{
    let mut out: Vec<u8> = Vec::new();
    if s.len() == 0 {
        proof {
            assert(out@ =~= Seq::<u8>::empty());
        }
        return Some(out);
    }
    let p = text::split(s, ":");
    let ghost ps = text::texts(p@);
    let mut i: usize = 0;
    proof {
        assert(ps.take(0) =~= Seq::<Seq<char>>::empty());
        assert(out@ =~= Seq::<u8>::empty());
    }
    while i < p.len()
        invariant
            i <= p@.len(),
            ps == text::texts(p@),
            ps == text::pieces(s@, ":"@),
            s@.len() > 0,
            i < p@.len() ==> groups(ps.take(i as int), false) == Some(out@),
            i == p@.len() ==> groups(ps, tail) == Some(out@),
            p@.len() > 0,
        decreases p@.len() - i,
    {
        let ghost cur = ps.take(i + 1);
        let last: bool = i + 1 == p.len();
        proof {
            assert(cur.drop_last() =~= ps.take(i as int));
            assert(cur.last() == p@[i as int]@);
            if last {
                assert(cur =~= ps);
            }
        }
        if tail && last {
            match parse_ipv4(p[i]) {
                Some(o) => {
                    crate::codec::append(&mut out, o.as_slice());
                    return Some(out);
                },
                None => {},
            }
        }
        match parse_hextet(p[i]) {
            Some(v) => {
                crate::codec::push_be16(&mut out, v);
            },
            None => {
                proof {
                    if !last {
                        lemma_groups_prefix(ps, i as int, tail);
                    }
                }
                return None;
            },
        }
        i += 1;
    }
    Some(out)
}

fn sixteen(b: &Vec<u8>) -> (r: [u8; 16])
    requires
        b@.len() == 16,
    ensures
        r@ == b@,
{
    let mut o: [u8; 16] = [0; 16];
    let mut i: usize = 0;
    while i < 16
        invariant
            i <= 16,
            b@.len() == 16,
            forall|j: int| 0 <= j < i ==> o@[j] == b@[j],
        decreases 16 - i,
    {
        o[i] = b[i];
        i += 1;
    }
    proof {
        assert(o@ =~= b@);
    }
    o
}

pub fn parse_ipv6(s: &[char]) -> (r: Option<[u8; 16]>)
    ensures
        match r {
            Some(o) => ipv6_of(s@) == Some(o@),
            None => ipv6_of(s@) is None,
        },
{
    match text::find(s, "::") {
        None => match parse_groups(s, true) {
            Some(b) => if b.len() == 16 {
                Some(sixteen(&b))
            } else {
                None
            },
            None => None,
        },
        Some(i) => {
            proof {
                reveal_strlit("::");
            }
            let n: usize = s.len();
            let head = &s[0..i];
            let rest = &s[i + 2..n];
            proof {
                assert(head@ =~= s@.take(i as int));
                assert(rest@ =~= s@.skip(i + 2));
            }
            match (parse_groups(head, false), parse_groups(rest, true)) {
                (Some(a), Some(b)) => {
                    if a.len() > 14 || b.len() > 14 - a.len() {
                        return None;
                    }
                    let gap: usize = 16 - a.len() - b.len();
                    let mut out = a;
                    crate::codec::append_zeros(&mut out, gap);
                    crate::codec::append(&mut out, b.as_slice());
                    let ghost z = zeros((16 - a@.len() - b@.len()) as nat);
                    proof {
                        assert(out@ =~= a@ + z + b@);
                    }
                    Some(sixteen(&out))
                },
                _ => None,
            }
        },
    }
}

pub open spec fn opt_ip(o: Option<Ip>) -> Option<IpView> {
    match o {
        Some(ip) => Some(ip@),
        None => None,
    }
}

/// The address that a text writes.
pub fn parse_ip(s: &[char]) -> (r: Option<Ip>)
    ensures
        opt_ip(r) == ip_of(s@),
{
    match parse_ipv4(s) {
        Some(o) => Some(Ip::V4(o)),
        None => match parse_ipv6(s) {
            Some(o) => Some(Ip::V6(o)),
            None => None,
        },
    }
}

/// Whether two IPv4 addresses are the same.
pub fn same_ipv4(a: [u8; 4], b: [u8; 4]) -> (r: bool)
    ensures
        r == (a@ == b@),
{
    let r = a[0] == b[0] && a[1] == b[1] && a[2] == b[2] && a[3] == b[3];
    proof {
        if r {
            assert(a@ =~= b@);
        }
    }
    r
}

/// The dotted form of an IPv4 address.
pub open spec fn ipv4_text(o: Seq<u8>) -> Seq<char> {
    text::dec(o[0] as nat) + seq!['.'] + text::dec(o[1] as nat) + seq!['.'] + text::dec(o[2] as nat) + seq!['.']
        + text::dec(o[3] as nat)
}

pub fn format_ipv4(o: [u8; 4]) -> (r: Vec<char>)
    ensures
        r@ == ipv4_text(o@),
{
    let mut r = text::format_dec(o[0] as u64);
    let b = text::format_dec(o[1] as u64);
    let c = text::format_dec(o[2] as u64);
    let d = text::format_dec(o[3] as u64);
    r.push('.');
    text::append(&mut r, b.as_slice());
    r.push('.');
    text::append(&mut r, c.as_slice());
    r.push('.');
    text::append(&mut r, d.as_slice());
    proof {
        assert(r@ =~= ipv4_text(o@));
    }
    r
}

// ---- laws ----
/// The four numbers of an IPv4 address, each in decimal and with dots between them, read
/// back as that address.
pub proof fn law_ipv4_reads_back(a: u8, b: u8, c: u8, d: u8)
    ensures
        ipv4_of(
            text::dec(a as nat) + seq!['.'] + text::dec(b as nat) + seq!['.'] + text::dec(c as nat)
                + seq!['.'] + text::dec(d as nat),
        ) == Some(seq![a, b, c, d]),
        ipv4_text(seq![a, b, c, d]) == text::dec(a as nat) + seq!['.'] + text::dec(b as nat) + seq![
            '.',
        ] + text::dec(c as nat) + seq!['.'] + text::dec(d as nat),
{
    let p = "."@;
    reveal_strlit(".");
    assert(p[0] == '.');
    let (x, y, z, w) = (
        text::dec(a as nat),
        text::dec(b as nat),
        text::dec(c as nat),
        text::dec(d as nat),
    );
    lemma_octet(a);
    lemma_octet(b);
    lemma_octet(c);
    lemma_octet(d);
    let e = Seq::<char>::empty();
    text::lemma_pieces_cut(w, '.', e, p);
    let t3 = z + seq!['.'] + w;
    text::lemma_pieces_cut(z, '.', w, p);
    let t2 = y + seq!['.'] + t3;
    text::lemma_pieces_cut(y, '.', t3, p);
    let t1 = x + seq!['.'] + t2;
    text::lemma_pieces_cut(x, '.', t2, p);
    let s = x + seq!['.'] + y + seq!['.'] + z + seq!['.'] + w;
    assert(s =~= t1);
    let q = text::pieces(s, p);
    assert(q =~= seq![x, y, z, w]);
    assert(q[0] == x && q[1] == y && q[2] == z && q[3] == w);
    assert(ipv4_of(s)->0 =~= seq![a, b, c, d]);
}

proof fn lemma_octet(a: u8)
    ensures
        octet(text::dec(a as nat)) == Some(a as int),
        forall|i: int| 0 <= i < text::dec(a as nat).len() ==> !("."@).contains(#[trigger] text::dec(a as nat)[i]),
{
    reveal_strlit(".");
    text::law_number_reads_back(a as nat, 255);
    text::law_dec_reads_back(a as nat);
    let s = text::dec(a as nat);
    assert forall|i: int| 0 <= i < s.len() implies !("."@).contains(#[trigger] s[i]) by {
        assert(text::is_digit(s[i]));
    }
}

} // verus!
