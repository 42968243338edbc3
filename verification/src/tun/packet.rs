//! IPv4 packets with UDP datagrams and TCP segments.

use vstd::prelude::*;

use crate::codec;

verus! {

pub const PROTO_TCP: u8 = 6;

pub const PROTO_UDP: u8 = 17;

pub const IP_HDR_MIN: usize = 20;

pub const UDP_HDR: usize = 8;

pub const TCP_HDR_MIN: usize = 20;

// ---- the checksum ----
/// The sum of the 16-bit words of bytes; a last byte alone is the high one of a
/// word.
pub open spec fn words(s: Seq<u8>) -> nat
    decreases s.len(),
{
    if s.len() == 0 {
        0
    } else if s.len() == 1 {
        s[0] as nat * 256
    } else {
        (codec::be16(s[0], s[1]) + words(s.skip(2))) as nat
    }
}

/// A sum with what is above 16 bits added below, until nothing is.
pub open spec fn folded(sum: nat) -> nat
    decreases sum,
{
    if sum <= 0xffff {
        sum
    } else {
        folded(sum % 0x10000 + sum / 0x10000)
    }
}

/// The checksum of a sum.
pub open spec fn checksum(sum: nat) -> int {
    0xffff - folded(sum)
}

/// Folding keeps a sum's remainder by 65535, and whether it is zero.
pub proof fn lemma_folded(sum: nat)
    ensures
        folded(sum) <= 0xffff,
        folded(sum) % 0xffff == sum % 0xffff,
        (folded(sum) == 0) == (sum == 0),
    decreases sum,
{
    if sum > 0xffff {
        let next = sum % 0x10000 + sum / 0x10000;
        lemma_folded(next);
        let q = (sum / 0x10000) as int;
        assert(sum == next + q * 0xffff);
        vstd::arithmetic::div_mod::lemma_mod_multiples_vanish(q, next as int, 0xffff);
    }
}

/// Two sums with the same remainder by 65535 fold to the same, if both or none of
/// them is zero.
proof fn lemma_fold_same(a: nat, b: nat)
    requires
        a % 0xffff == b % 0xffff,
        (a == 0) == (b == 0),
    ensures
        folded(a) == folded(b),
{
    lemma_folded(a);
    lemma_folded(b);
}

fn fold(sum: u32) -> (r: u16)
    ensures
        r == checksum(sum as nat),
{
    let ghost start = sum as nat;
    let mut s: u32 = sum;
    while s > 0xffff
        invariant
            folded(start) == folded(s as nat),
        decreases s,
    {
        s = s % 0x10000 + s / 0x10000;
    }
    (0xffff - s) as u16
}

/// Adds a word to a sum that is kept small.
fn add_word(sum: u32, word: u16) -> (r: u32)
    requires
        sum <= 0x1ffff,
    ensures
        r <= 0x1ffff,
        r as int % 0xffff == (sum + word) % 0xffff,
        (r == 0) == (sum + word == 0),
{
    let t: u32 = sum + word as u32;
    if t > 0xffff {
        let q: u32 = t / 0x10000;
        let r: u32 = t % 0x10000 + q;
        proof {
            assert(t == r + q * 0xffff);
            vstd::arithmetic::div_mod::lemma_mod_multiples_vanish(q as int, r as int, 0xffff);
        }
        r
    } else {
        t
    }
}

proof fn lemma_mod_sum(a: int, b: int, c: int)
    requires
        a % 0xffff == b % 0xffff,
    ensures
        (a + c) % 0xffff == (b + c) % 0xffff,
{
    vstd::arithmetic::div_mod::lemma_add_mod_noop(a, c, 0xffff);
    vstd::arithmetic::div_mod::lemma_add_mod_noop(b, c, 0xffff);
}

/// Adds the words of a range to a sum that is kept small.
fn add_words(sum: u32, data: &[u8], from: usize, to: usize) -> (r: u32)
    requires
        sum <= 0x1ffff,
        from <= to <= data@.len(),
    ensures
        r <= 0x1ffff,
        r as int % 0xffff == (sum + words(data@.subrange(from as int, to as int))) % 0xffff,
        (r == 0) == (sum + words(data@.subrange(from as int, to as int)) == 0),
{
    let ghost all = sum as int + words(data@.subrange(from as int, to as int));
    let total: usize = data.len();
    let mut s: u32 = sum;
    let mut i: usize = from;
    while i < to
        invariant
            s <= 0x1ffff,
            from <= i <= to <= data@.len(),
            total == data@.len(),
            (s + words(data@.subrange(i as int, to as int))) % 0xffff == all % 0xffff,
            (s + words(data@.subrange(i as int, to as int)) == 0) == (all == 0),
        decreases to - i,
    {
        let ghost rest = data@.subrange(i as int, to as int);
        let ghost was = s;
        if to - i == 1 {
            let w: u16 = data[i] as u16 * 256;
            s = add_word(s, w);
            proof {
                assert(words(rest) == w);
                assert(data@.subrange(i + 1, to as int).len() == 0);
            }
            i += 1;
        } else {
            let w: u16 = codec::read_be16(data[i], data[i + 1]);
            s = add_word(s, w);
            proof {
                let next = data@.subrange(i + 2, to as int);
                assert(rest.skip(2) =~= next);
                assert(words(rest) == w + words(next));
                lemma_mod_sum(s as int, was + w, words(next) as int);
            }
            i += 2;
        }
    }
    assert(data@.subrange(i as int, to as int).len() == 0);
    s
}

/// Changing a word at an even position changes the sum by the difference.
proof fn lemma_words_put(s: Seq<u8>, at: int, n: int)
    requires
        0 <= at,
        at % 2 == 0,
        at + 2 <= s.len(),
        0 <= n < 0x10000,
    ensures
        words(codec::put_at(s, at, codec::be16_bytes(n))) + codec::be16(s[at], s[at + 1]) == words(
            s,
        ) + n,
    decreases at,
{
    let b = codec::be16_bytes(n);
    let t = codec::put_at(s, at, b);
    codec::law_be16_reads_back(n);
    if at == 0 {
        assert(t.skip(2) =~= s.skip(2));
        assert(t[0] == b[0] && t[1] == b[1]);
    } else {
        lemma_words_put(s.skip(2), at - 2, n);
        assert(t.skip(2) =~= codec::put_at(s.skip(2), at - 2, b));
        assert(s.skip(2)[at - 2] == s[at]);
        assert(s.skip(2)[at - 1] == s[at + 1]);
    }
}

// ---- IPv4 ----
/// The header length, the protocol, the two addresses and the total length.
pub open spec fn ipv4_of(p: Seq<u8>) -> Option<(int, u8, Seq<u8>, Seq<u8>, int)> {
    if p.len() < IP_HDR_MIN || p[0] / 16 != 4 {
        None
    } else {
        let h = (p[0] % 16) as int * 4;
        if h < IP_HDR_MIN || p.len() < h {
            None
        } else {
            let t = codec::be16(p[2], p[3]);
            Some(
                (
                    h,
                    p[9],
                    p.subrange(12, 16),
                    p.subrange(16, 20),
                    if t < h || t > p.len() {
                        p.len() as int
                    } else {
                        t
                    },
                ),
            )
        }
    }
}

/// Reads the header of a packet: its length, the protocol, source and destination,
/// and the total length, which is that of the bytes where it makes no sense.
pub fn parse_ipv4(packet: &[u8]) -> (r: Option<(usize, u8, [u8; 4], [u8; 4], usize)>)
    ensures
        match r {
            Some((h, p, s, d, t)) => ipv4_of(packet@) == Some((h as int, p, s@, d@, t as int)),
            None => ipv4_of(packet@) is None,
        },
{
    let total: usize = packet.len();
    if total < IP_HDR_MIN || packet[0] / 16 != 4 {
        return None;
    }
    let h: usize = (packet[0] % 16) as usize * 4;
    if h < IP_HDR_MIN || total < h {
        return None;
    }
    let mut t: usize = codec::read_be16(packet[2], packet[3]) as usize;
    if t < h || t > total {
        t = total;
    }
    let s: [u8; 4] = [packet[12], packet[13], packet[14], packet[15]];
    let d: [u8; 4] = [packet[16], packet[17], packet[18], packet[19]];
    assert(s@ =~= packet@.subrange(12, 16));
    assert(d@ =~= packet@.subrange(16, 20));
    Some((h, packet[9], s, d, t))
}

/// A packet with the checksum of its header.
pub open spec fn with_ip_checksum(p: Seq<u8>, h: int) -> Seq<u8> {
    let z = codec::put_at(p, 10, codec::be16_bytes(0));
    codec::put_at(z, 10, codec::be16_bytes(checksum(words(z.take(h)))))
}

/// A packet with other addresses.
pub open spec fn with_addresses(p: Seq<u8>, h: int, src: Seq<u8>, dst: Seq<u8>) -> Seq<u8> {
    with_ip_checksum(codec::put_at(codec::put_at(p, 12, src), 16, dst), h)
}

/// A packet with another total length.
pub open spec fn with_total_length(p: Seq<u8>, n: int) -> Seq<u8> {
    with_ip_checksum(codec::put_at(p, 2, codec::be16_bytes(n)), (p[0] % 16) as int * 4)
}

fn put_be16(packet: &mut [u8], at: usize, n: u16)
    requires
        at + 2 <= old(packet)@.len(),
    ensures
        final(packet)@ == codec::put_at(old(packet)@, at as int, codec::be16_bytes(n as int)),
        final(packet)@.len() == old(packet)@.len(),
{
    let mut b: Vec<u8> = Vec::new();
    codec::push_be16(&mut b, n);
    assert(b@ =~= codec::be16_bytes(n as int));
    codec::put(packet, at, b.as_slice());
}

fn update_ip_checksum(packet: &mut [u8], header_len: usize)
    requires
        old(packet)@.len() >= 12,
        header_len <= old(packet)@.len(),
    ensures
        final(packet)@ == with_ip_checksum(old(packet)@, header_len as int),
        final(packet)@.len() == old(packet)@.len(),
{
    put_be16(packet, 10, 0);
    let s: u32 = add_words(0, packet, 0, header_len);
    let sum: u16 = fold(s);
    proof {
        let w = words(packet@.take(header_len as int));
        assert(packet@.subrange(0, header_len as int) =~= packet@.take(header_len as int));
        lemma_fold_same(s as nat, w);
    }
    put_be16(packet, 10, sum);
}

/// Writes other addresses into a packet, and the checksum of its header.
pub fn set_addresses(packet: &mut [u8], header_len: usize, src: [u8; 4], dst: [u8; 4])
    requires
        old(packet)@.len() >= IP_HDR_MIN,
        header_len <= old(packet)@.len(),
    ensures
        final(packet)@ == with_addresses(old(packet)@, header_len as int, src@, dst@),
        final(packet)@.len() == old(packet)@.len(),
{
    codec::put(packet, 12, src.as_slice());
    codec::put(packet, 16, dst.as_slice());
    update_ip_checksum(packet, header_len);
}

/// Writes another total length into a packet, and the checksum of its header.
pub fn set_total_length(packet: &mut [u8], total_len: u16)
    requires
        old(packet)@.len() >= 12,
        (old(packet)@[0] % 16) as int * 4 <= old(packet)@.len(),
    ensures
        final(packet)@ == with_total_length(old(packet)@, total_len as int),
        final(packet)@.len() == old(packet)@.len(),
{
    put_be16(packet, 2, total_len);
    let header_len: usize = (packet[0] % 16) as usize * 4;
    update_ip_checksum(packet, header_len);
}

// ---- UDP ----
/// The two ports and the length of the payload.
pub open spec fn udp_of(s: Seq<u8>) -> Option<(int, int, int)> {
    if s.len() < UDP_HDR {
        None
    } else {
        let n = codec::be16(s[4], s[5]);
        Some(
            (
                codec::be16(s[0], s[1]),
                codec::be16(s[2], s[3]),
                if n < UDP_HDR || n > s.len() {
                    s.len() - UDP_HDR
                } else {
                    n - UDP_HDR
                },
            ),
        )
    }
}

/// Reads the ports of a datagram and the length of its payload, which is that of
/// the bytes where it makes no sense.
pub fn parse_udp(segment: &[u8]) -> (r: Option<(u16, u16, usize)>)
    ensures
        match r {
            Some((s, d, n)) => udp_of(segment@) == Some((s as int, d as int, n as int)),
            None => udp_of(segment@) is None,
        },
{
    let total: usize = segment.len();
    if total < UDP_HDR {
        return None;
    }
    let src: u16 = codec::read_be16(segment[0], segment[1]);
    let dst: u16 = codec::read_be16(segment[2], segment[3]);
    let mut n: usize = codec::read_be16(segment[4], segment[5]) as usize;
    if n < UDP_HDR || n > total {
        n = total;
    }
    Some((src, dst, n - UDP_HDR))
}

/// What a checksum counts beside a segment: the addresses, the protocol and the
/// length.
pub open spec fn pseudo(src: Seq<u8>, dst: Seq<u8>, proto: u8, n: int) -> nat {
    (words(src) + words(dst) + proto as nat + n) as nat
}

fn add_pseudo(src: [u8; 4], dst: [u8; 4], proto: u8, n: usize) -> (r: u32)
    requires
        proto > 0,
    ensures
        0 < r <= 0x1ffff,
        r as int % 0xffff == pseudo(src@, dst@, proto, n as int) % 0xffff,
{
    let a: u32 = add_words(0, src.as_slice(), 0, 4);
    assert(src@.subrange(0, 4) =~= src@);
    let b: u32 = add_words(a, dst.as_slice(), 0, 4);
    assert(dst@.subrange(0, 4) =~= dst@);
    let c: u32 = add_word(b, proto as u16);
    let m: u16 = (n % 0xffff) as u16;
    let d: u32 = add_word(c, m);
    proof {
        lemma_mod_sum(a as int, words(src@) as int, words(dst@) as int);
        lemma_mod_sum(b as int, (words(src@) + words(dst@)) as int, proto as int);
        lemma_mod_sum(c as int, words(src@) + words(dst@) + proto as int, m as int);
        vstd::arithmetic::div_mod::lemma_add_mod_noop_right(
            words(src@) + words(dst@) + proto as int,
            n as int,
            0xffff,
        );
    }
    d
}

/// A datagram with a checksum field.
pub open spec fn udp_with(sport: int, dport: int, sum: int, payload: Seq<u8>) -> Seq<u8> {
    codec::be16_bytes(sport) + codec::be16_bytes(dport) + codec::be16_bytes(
        (UDP_HDR + payload.len()) as int % 0x10000,
    ) + codec::be16_bytes(sum) + payload
}

/// What the checksum of a datagram counts.
pub open spec fn udp_sum(
    sport: int,
    dport: int,
    payload: Seq<u8>,
    src: Seq<u8>,
    dst: Seq<u8>,
) -> nat {
    pseudo(src, dst, PROTO_UDP, (UDP_HDR + payload.len()) as int) + words(
        udp_with(sport, dport, 0, payload),
    )
}

/// A checksum of zero is written as 65535.
pub open spec fn udp_checksum(sum: nat) -> int {
    if checksum(sum) == 0 {
        0xffff
    } else {
        checksum(sum)
    }
}

pub open spec fn datagram(
    sport: int,
    dport: int,
    payload: Seq<u8>,
    src: Seq<u8>,
    dst: Seq<u8>,
) -> Seq<u8> {
    udp_with(sport, dport, udp_checksum(udp_sum(sport, dport, payload, src, dst)), payload)
}

/// Builds a datagram.
pub fn build_udp(
    src_port: u16,
    dst_port: u16,
    payload: &[u8],
    src: [u8; 4],
    dst: [u8; 4],
) -> (r: Vec<u8>)
    requires
        UDP_HDR + payload@.len() <= usize::MAX,
    ensures
        r@ == datagram(src_port as int, dst_port as int, payload@, src@, dst@),
        r@.len() == UDP_HDR + payload@.len(),
{
    let n: usize = UDP_HDR + payload.len();
    let mut out: Vec<u8> = Vec::new();
    codec::push_be16(&mut out, src_port);
    codec::push_be16(&mut out, dst_port);
    codec::push_be16(&mut out, (n % 0x10000) as u16);
    codec::push_be16(&mut out, 0);
    codec::append(&mut out, payload);
    let ghost z = udp_with(src_port as int, dst_port as int, 0, payload@);
    assert(out@ =~= z);
    let a: u32 = add_pseudo(src, dst, PROTO_UDP, n);
    let s: u32 = add_words(a, out.as_slice(), 0, n);
    assert(out@.subrange(0, n as int) =~= z);
    let mut csum: u16 = fold(s);
    proof {
        let p = pseudo(src@, dst@, PROTO_UDP, n as int);
        let t = udp_sum(src_port as int, dst_port as int, payload@, src@, dst@);
        lemma_mod_sum(a as int, p as int, words(z) as int);
        lemma_fold_same(s as nat, t);
    }
    if csum == 0 {
        csum = 0xffff;
    }
    let mut r: Vec<u8> = Vec::new();
    codec::push_be16(&mut r, src_port);
    codec::push_be16(&mut r, dst_port);
    codec::push_be16(&mut r, (n % 0x10000) as u16);
    codec::push_be16(&mut r, csum);
    codec::append(&mut r, payload);
    assert(r@ =~= datagram(src_port as int, dst_port as int, payload@, src@, dst@));
    r
}

/// Writes a datagram to the beginning of a buffer.
pub fn write_udp(
    segment: &mut [u8],
    src_port: u16,
    dst_port: u16,
    payload: &[u8],
    src: [u8; 4],
    dst: [u8; 4],
)
    requires
        UDP_HDR + payload@.len() <= old(segment)@.len(),
    ensures
        final(segment)@ == codec::put_at(
            old(segment)@,
            0,
            datagram(src_port as int, dst_port as int, payload@, src@, dst@),
        ),
{
    let total: usize = segment.len();
    let d = build_udp(src_port, dst_port, payload, src, dst);
    codec::put(segment, 0, d.as_slice());
}

// ---- TCP ----
/// The two ports, the flags and where the data begins.
pub open spec fn tcp_of(s: Seq<u8>) -> Option<(int, int, u8, int)> {
    if s.len() < TCP_HDR_MIN {
        None
    } else {
        let off = (s[12] / 16) as int * 4;
        if off < TCP_HDR_MIN || off > s.len() {
            None
        } else {
            Some((codec::be16(s[0], s[1]), codec::be16(s[2], s[3]), s[13], off))
        }
    }
}

/// Reads the ports and the flags of a segment, and where its data begins.
pub fn parse_tcp(segment: &[u8]) -> (r: Option<(u16, u16, u8, usize)>)
    ensures
        match r {
            Some((s, d, f, o)) => tcp_of(segment@) == Some((s as int, d as int, f, o as int)),
            None => tcp_of(segment@) is None,
        },
{
    let total: usize = segment.len();
    if total < TCP_HDR_MIN {
        return None;
    }
    let src: u16 = codec::read_be16(segment[0], segment[1]);
    let dst: u16 = codec::read_be16(segment[2], segment[3]);
    let off: usize = (segment[12] / 16) as usize * 4;
    if off < TCP_HDR_MIN || off > total {
        return None;
    }
    Some((src, dst, segment[13], off))
}

/// A packet with other ports in the segment that begins at `at`.
pub open spec fn with_ports(p: Seq<u8>, at: int, src: int, dst: int) -> Seq<u8> {
    codec::put_at(codec::put_at(p, at, codec::be16_bytes(src)), at + 2, codec::be16_bytes(dst))
}

/// Writes other ports into the segment that begins at `at`.
pub fn set_ports_at(packet: &mut [u8], at: usize, src: u16, dst: u16)
    requires
        at + 4 <= old(packet)@.len(),
    ensures
        final(packet)@ == with_ports(old(packet)@, at as int, src as int, dst as int),
        final(packet)@.len() == old(packet)@.len(),
{
    let total: usize = packet.len();
    assert(at + 4 <= total);
    put_be16(packet, at, src);
    put_be16(packet, at + 2, dst);
}

/// Writes other ports into a segment.
pub fn set_tcp_ports(segment: &mut [u8], src: u16, dst: u16)
    requires
        old(segment)@.len() >= 4,
    ensures
        final(segment)@ == with_ports(old(segment)@, 0, src as int, dst as int),
        final(segment)@.len() == old(segment)@.len(),
{
    set_ports_at(segment, 0, src, dst);
}

/// The length of the segment behind a header.
pub open spec fn tcp_length(p: Seq<u8>, h: int) -> int {
    let t = codec::be16(p[2], p[3]);
    if h <= t <= p.len() {
        t - h
    } else {
        p.len() - h
    }
}

/// A packet with the checksum of its segment.
pub open spec fn with_tcp_checksum(p: Seq<u8>, h: int, src: Seq<u8>, dst: Seq<u8>) -> Seq<u8> {
    let n = tcp_length(p, h);
    if n < TCP_HDR_MIN {
        p
    } else {
        let z = codec::put_at(p, h + 16, codec::be16_bytes(0));
        codec::put_at(
            z,
            h + 16,
            codec::be16_bytes(
                checksum(pseudo(src, dst, PROTO_TCP, n) + words(z.subrange(h, h + n))),
            ),
        )
    }
}

/// Writes the checksum of the segment behind a header; one that is too short is
/// left as it is.
pub fn update_tcp_checksum(packet: &mut [u8], ip_hdr_len: usize, src: [u8; 4], dst: [u8; 4])
    requires
        old(packet)@.len() >= 4,
        ip_hdr_len <= old(packet)@.len(),
    ensures
        final(packet)@ == with_tcp_checksum(old(packet)@, ip_hdr_len as int, src@, dst@),
        final(packet)@.len() == old(packet)@.len(),
{
    let total: usize = packet.len();
    let mut len: usize = total;
    let field: usize = codec::read_be16(packet[2], packet[3]) as usize;
    if field >= ip_hdr_len && field <= total {
        len = field;
    }
    let n: usize = len - ip_hdr_len;
    if n < TCP_HDR_MIN {
        return ;
    }
    put_be16(packet, ip_hdr_len + 16, 0);
    let a: u32 = add_pseudo(src, dst, PROTO_TCP, n);
    let s: u32 = add_words(a, packet, ip_hdr_len, len);
    let sum: u16 = fold(s);
    proof {
        let p = pseudo(src@, dst@, PROTO_TCP, n as int);
        let w = words(packet@.subrange(ip_hdr_len as int, len as int));
        lemma_mod_sum(a as int, p as int, w as int);
        lemma_fold_same(s as nat, p + w);
    }
    put_be16(packet, ip_hdr_len + 16, sum);
}

// ---- laws ----
proof fn lemma_checked(sum: nat)
    requires
        sum > 0,
    ensures
        folded((sum + checksum(sum)) as nat) == 0xffff,
        folded((sum + udp_checksum(sum)) as nat) == 0xffff,
{
    lemma_folded(sum);
    let c = checksum(sum);
    let f = folded(sum);
    lemma_mod_sum(sum as int, f as int, c);
    assert((sum + c) % 0xffff == 0xffffint % 0xffff);
    lemma_folded((sum + c) as nat);
    lemma_folded((sum + 0xffff) as nat);
    if c == 0 {
        assert(f == 0xffff);
        assert(f as int % 0xffff == 0);
        lemma_mod_sum(sum as int, 0, 0xffff);
    }
}

/// A header with its checksum is one that its receiver accepts: with it, the words
/// add up to 65535.
pub proof fn law_header_checks(p: Seq<u8>, h: int)
    requires
        12 <= h <= p.len(),
        p[0] > 0,
    ensures
        folded(words(with_ip_checksum(p, h).take(h))) == 0xffff,
{
    let z = codec::put_at(p, 10, codec::be16_bytes(0));
    let w = words(z.take(h));
    lemma_folded(w);
    let c = checksum(w);
    let t = z.take(h);
    lemma_words_put(t, 10, c);
    codec::law_be16_reads_back(0);
    assert(t[10] == codec::be16_bytes(0)[0] && t[11] == codec::be16_bytes(0)[1]);
    assert(with_ip_checksum(p, h).take(h) =~= codec::put_at(t, 10, codec::be16_bytes(c)));
    assert(t[0] == p[0]);
    assert(w >= codec::be16(t[0], t[1]));
    lemma_checked(w);
}

/// A datagram is one that its receiver accepts, and its checksum is not zero, which
/// would say that it has none.
pub proof fn law_datagram_checks(
    sport: int,
    dport: int,
    payload: Seq<u8>,
    src: Seq<u8>,
    dst: Seq<u8>,
)
    requires
        0 <= sport < 0x10000,
        0 <= dport < 0x10000,
    ensures
        ({
            let d = datagram(sport, dport, payload, src, dst);
            &&& folded(
                pseudo(src, dst, PROTO_UDP, d.len() as int) + words(d),
            ) == 0xffff
            &&& codec::be16(d[6], d[7]) != 0
            &&& (d.len() < 0x10000 ==> udp_of(d) == Some((sport, dport, payload.len() as int)))
        }),
{
    let z = udp_with(sport, dport, 0, payload);
    let sum = udp_sum(sport, dport, payload, src, dst);
    lemma_folded(sum);
    let c = udp_checksum(sum);
    let d = datagram(sport, dport, payload, src, dst);
    lemma_words_put(z, 6, c);
    codec::law_be16_reads_back(0);
    codec::law_be16_reads_back(c);
    codec::law_be16_reads_back(sport);
    codec::law_be16_reads_back(dport);
    codec::law_be16_reads_back((UDP_HDR + payload.len()) as int % 0x10000);
    assert(d =~= codec::put_at(z, 6, codec::be16_bytes(c)));
    assert(z[6] == codec::be16_bytes(0)[0] && z[7] == codec::be16_bytes(0)[1]);
    assert(d[6] == codec::be16_bytes(c)[0] && d[7] == codec::be16_bytes(c)[1]);
    assert(d[0] == codec::be16_bytes(sport)[0] && d[1] == codec::be16_bytes(sport)[1]);
    assert(d[2] == codec::be16_bytes(dport)[0] && d[3] == codec::be16_bytes(dport)[1]);
    let n = (UDP_HDR + payload.len()) as int % 0x10000;
    assert(d[4] == codec::be16_bytes(n)[0] && d[5] == codec::be16_bytes(n)[1]);
    lemma_checked(sum);
}

/// A segment with its checksum is one that its receiver accepts.
pub proof fn law_segment_checks(p: Seq<u8>, h: int, src: Seq<u8>, dst: Seq<u8>)
    requires
        4 <= h <= p.len(),
        h % 2 == 0,
        tcp_length(p, h) >= TCP_HDR_MIN,
    ensures
        ({
            let q = with_tcp_checksum(p, h, src, dst);
            let n = tcp_length(p, h);
            folded(pseudo(src, dst, PROTO_TCP, n) + words(q.subrange(h, h + n))) == 0xffff
        }),
{
    let n = tcp_length(p, h);
    let z = codec::put_at(p, h + 16, codec::be16_bytes(0));
    let t = z.subrange(h, h + n);
    let sum = pseudo(src, dst, PROTO_TCP, n) + words(t);
    lemma_folded(sum);
    let c = checksum(sum);
    lemma_words_put(t, 16, c);
    codec::law_be16_reads_back(0);
    assert(t[16] == codec::be16_bytes(0)[0] && t[17] == codec::be16_bytes(0)[1]);
    assert(with_tcp_checksum(p, h, src, dst).subrange(h, h + n) =~= codec::put_at(
        t,
        16,
        codec::be16_bytes(c),
    ));
    lemma_checked(sum);
}

/// The packet with other addresses has the source at its twelfth byte and the
/// destination behind it; apart from them and the checksum of the header it
/// is the same.
pub proof fn law_addresses_stand_at(p: Seq<u8>, h: int, src: Seq<u8>, dst: Seq<u8>)
    requires
        20 <= h <= p.len(),
        src.len() == 4,
        dst.len() == 4,
    ensures
        ({
            let q = with_addresses(p, h, src, dst);
            &&& q.len() == p.len()
            &&& q.subrange(12, 16) == src
            &&& q.subrange(16, 20) == dst
            &&& forall|i: int|
                0 <= i < 10 || 20 <= i < p.len() ==> #[trigger] q[i] == p[i]
        }),
{
    let q = with_addresses(p, h, src, dst);
    assert(q.subrange(12, 16) =~= src);
    assert(q.subrange(16, 20) =~= dst);
}

/// The ports of a segment are its first four bytes, the high byte of each first.
pub proof fn law_ports_stand_at(p: Seq<u8>, at: int, src: int, dst: int)
    requires
        0 <= at,
        at + 4 <= p.len(),
        0 <= src < 0x1_0000,
        0 <= dst < 0x1_0000,
    ensures
        ({
            let q = with_ports(p, at, src, dst);
            &&& q.len() == p.len()
            &&& q[at] * 256 + q[at + 1] == src
            &&& q[at + 2] * 256 + q[at + 3] == dst
            &&& forall|i: int|
                0 <= i < at || at + 4 <= i < p.len() ==> #[trigger] q[i] == p[i]
        }),
{
    codec::law_high_byte_first(src);
    codec::law_high_byte_first(dst);
}

/// The checksum of a segment changes no other byte of its packet.
pub proof fn law_checksum_stands_at(p: Seq<u8>, h: int, src: Seq<u8>, dst: Seq<u8>)
    requires
        20 <= h,
        h + 20 <= p.len(),
    ensures
        ({
            let q = with_tcp_checksum(p, h, src, dst);
            &&& q.len() == p.len()
            &&& forall|i: int|
                0 <= i < h + 16 || h + 18 <= i < p.len() ==> #[trigger] q[i] == p[i]
        }),
{
}

/// A datagram begins with its two ports, its length and its checksum, and ends with
/// the payload.
pub proof fn law_datagram_layout(
    sport: int,
    dport: int,
    payload: Seq<u8>,
    src: Seq<u8>,
    dst: Seq<u8>,
)
    requires
        0 <= sport < 0x1_0000,
        0 <= dport < 0x1_0000,
        8 + payload.len() < 0x1_0000,
    ensures
        ({
            let d = datagram(sport, dport, payload, src, dst);
            &&& d.len() == 8 + payload.len()
            &&& d[0] * 256 + d[1] == sport
            &&& d[2] * 256 + d[3] == dport
            &&& d[4] * 256 + d[5] == d.len()
            &&& d.skip(8) == payload
        }),
{
    let d = datagram(sport, dport, payload, src, dst);
    codec::law_high_byte_first(sport);
    codec::law_high_byte_first(dport);
    codec::law_high_byte_first((8 + payload.len()) as int);
    assert(d.skip(8) =~= payload);
}

/// What the checksum counts beside a segment is the two addresses, the number of
/// the protocol, 17 for UDP and 6 for TCP, and the length.
pub proof fn law_pseudo_header(src: Seq<u8>, dst: Seq<u8>, n: int)
    requires
        src.len() == 4,
        dst.len() == 4,
        n >= 0,
    ensures
        ({
            let ends = src[0] * 256 + src[1] + src[2] * 256 + src[3] + dst[0] * 256 + dst[1]
                + dst[2] * 256 + dst[3];
            &&& pseudo(src, dst, PROTO_UDP, n) == ends + 17 + n
            &&& pseudo(src, dst, PROTO_TCP, n) == ends + 6 + n
        }),
{
    reveal_with_fuel(words, 3);
    assert(src.skip(2).skip(2).len() == 0);
    assert(dst.skip(2).skip(2).len() == 0);
}

/// What is read of a packet with a head of 20 bytes, however short it is otherwise: its
/// protocol, the addresses it comes from and goes to, and its length.
pub proof fn law_packet_is_read(p: Seq<u8>)
    requires
        p.len() >= 20,
        p[0] == 0x45,
    ensures
        ({
            let r = ipv4_of(p);
            &&& r is Some
            &&& (r->0).0 == 20
            &&& (r->0).1 == p[9]
            &&& (r->0).2 == seq![p[12], p[13], p[14], p[15]]
            &&& (r->0).3 == seq![p[16], p[17], p[18], p[19]]
            &&& (20 <= p[2] * 256 + p[3] <= p.len() ==> (r->0).4 == p[2] * 256 + p[3])
            &&& (p[2] * 256 + p[3] < 20 || p[2] * 256 + p[3] > p.len() ==> (r->0).4 == p.len())
        }),
{
    assert(0x45u8 / 16 == 4 && 0x45u8 % 16 == 5);
    assert(p.subrange(12, 16) =~= seq![p[12], p[13], p[14], p[15]]);
    assert(p.subrange(16, 20) =~= seq![p[16], p[17], p[18], p[19]]);
}

/// What is no packet: fewer than 20 bytes, another version, or a head that does not fit.
pub proof fn law_no_packet(p: Seq<u8>)
    ensures
        p.len() < 20 ==> ipv4_of(p) is None,
        p.len() >= 20 && p[0] / 16 != 4 ==> ipv4_of(p) is None,
        p.len() >= 20 && p[0] == 0x44 ==> ipv4_of(p) is None,
        p.len() == 20 && p[0] == 0x46 ==> ipv4_of(p) is None,
{
    assert(0x44u8 % 16 == 4 && 0x46u8 % 16 == 6);
}

} // verus!
