//! What becomes of a packet of the virtual interface, and of a connection that
//! comes of it.

use vstd::prelude::*;

use crate::codec;
use crate::dns::doh::DohBlocklist;
use crate::dns::fake_ip;
use crate::dns::fake_ip::{FakeIpPool, PoolView};
use crate::dns::message;
use crate::ip;
use crate::ip::{Ip, IpView};
use crate::rules;
use crate::rules::{RuleAction, RuleDb};
use crate::text;
use crate::tun::packet;
use crate::tun::probe;
use crate::tun::tcp_nat::{EndView, Endpoint, NatView, TcpNat};
use crate::utils;

verus! {

/// The longest packet.
pub const MAX_IP: usize = 0xFFFF;

/// How often the stack tries to listen when it starts.
pub const LISTEN_ATTEMPTS: u32 = 10;

// ---- queries ----
/// The answer to a query: a name gets a fake address to which no connection goes,
/// and any other question an empty answer.
pub open spec fn dns_answer(table: NatView, pool: PoolView, query: Seq<u8>) -> (
    PoolView,
    Option<Seq<u8>>,
) {
    match message::query_of(query) {
        None => (pool, None),
        Some((id, name, ty)) => if ty == 1 {
            let (n, p) = pool.looked_up(utils::ascii_host(name), table.destinations());
            (
                p,
                Some(
                    message::header(id, 0x8580, 1, 1) + message::question(name, 1)
                        + message::a_answer(300, fake_ip::numbered_ip(n)),
                ),
            )
        } else {
            (
                pool,
                Some(message::header(id, 0x8180, 1, 0) + message::question(name, ty)),
            )
        },
    }
}

/// Answers a query.
pub fn answer_query(table: &TcpNat, pool: &mut FakeIpPool, query: &[u8]) -> (r: Option<Vec<u8>>)
    requires
        table.wf(),
        old(pool)@.wf(),
    ensures
        final(pool)@.wf(),
        (final(pool)@, codec::opt_bytes(r)) == dns_answer(table@, old(pool)@, query@),
        (message::query_of(query@) is Some) == (r is Some),
        r is Some ==> r->0@.len() > 12 && r->0@[0] == query@[0] && r->0@[1] == query@[1],
        r is Some && (message::query_of(query@)->0).2 != 1 ==> final(pool)@ == old(pool)@,
{
    proof {
        if message::query_of(query@) is Some {
            law_every_query_is_answered(table@, pool@, query@);
        }
    }
    match message::parse_dns_query(query) {
        None => None,
        Some((id, name, ty)) => {
            if ty == 1 {
                let busy = table.destinations();
                let fake: [u8; 4] = pool.lookup_avoiding(name.as_str(), busy.as_slice());
                Some(message::build_named_a_response(id, name.as_str(), fake))
            } else {
                Some(message::build_empty_dns(id, name.as_str(), ty))
            }
        },
    }
}

/// The beginning of a header without addresses.
pub open spec fn bare_header() -> Seq<u8> {
    seq![
        0x45u8, 0u8, 0u8, 0u8, 0u8, 0u8, 0u8, 0u8, 64u8, packet::PROTO_UDP, 0u8, 0u8, 0u8, 0u8,
        0u8, 0u8, 0u8, 0u8, 0u8, 0u8,
    ]
}

/// The packet that carries an answer from the server that was asked.
pub open spec fn dns_packet(
    asker: Seq<u8>,
    server: Seq<u8>,
    port: u16,
    answer: Seq<u8>,
) -> Seq<u8> {
    let n = 28 + answer.len() as int;
    let blank = bare_header() + ip::zeros((8 + answer.len()) as nat);
    codec::put_at(
        packet::with_total_length(packet::with_addresses(blank, 20, server, asker), n),
        20,
        packet::datagram(53, port as int, answer, server, asker),
    )
}

fn build_dns_packet(asker: [u8; 4], server: [u8; 4], port: u16, answer: &[u8]) -> (r: Vec<u8>)
    requires
        28 + answer@.len() <= MAX_IP,
    ensures
        r@ == dns_packet(asker@, server@, port, answer@),
{
    let n: usize = 28 + answer.len();
    let head: [u8; 20] = [
        0x45, 0, 0, 0, 0, 0, 0, 0, 64, 17, 0, 0, 0, 0, 0, 0, 0, 0, 0, 0,
    ];
    assert(head@ =~= bare_header());
    let mut out = codec::copy(head.as_slice());
    codec::append_zeros(&mut out, n - 20);
    assert(out@ =~= bare_header() + ip::zeros((8 + answer@.len()) as nat));
    packet::set_addresses(&mut out, 20, server, asker);
    assert(out@[0] == 0x45);
    packet::set_total_length(&mut out, n as u16);
    let d = packet::build_udp(53, port, answer, server, asker);
    codec::put(&mut out, 20, d.as_slice());
    out
}

// ---- packets ----
/// Whether an address is in the network of the virtual interface.
pub open spec fn tun_prefix(o: Seq<u8>) -> bool {
    o[0] == 172 && o[1] == 19 && o[2] == 0 && o[3] <= 3
}

/// Whether an address is one of a host that may be anywhere.
pub open spec fn global_unicast(o: Seq<u8>) -> bool {
    o[0] != 0 && o[0] != 127 && !(o[0] == 169 && o[1] == 254) && o[0] < 224
}

pub fn is_tun_prefix(o: [u8; 4]) -> (r: bool)
    ensures
        r == tun_prefix(o@),
{
    o[0] == 172 && o[1] == 19 && o[2] == 0 && o[3] <= 3
}

pub fn is_global_unicast(o: [u8; 4]) -> (r: bool)
    ensures
        r == global_unicast(o@),
{
    if o[0] == 0 || o[0] == 127 {
        return false;
    }
    if o[0] == 169 && o[1] == 254 {
        return false;
    }
    o[0] < 224
}

/// A packet with other ends.
pub open spec fn redirected(p: Seq<u8>, h: int, total: int, src: EndView, dst: EndView) -> Seq<u8> {
    packet::with_tcp_checksum(
        packet::with_ports(
            packet::with_addresses(p, h, src.ip, dst.ip),
            h,
            src.port as int,
            dst.port as int,
        ),
        h,
        src.ip,
        dst.ip,
    ).take(total)
}

/// A packet as it can be sent: not empty and not too long.
pub open spec fn sendable(p: Seq<u8>) -> Option<Seq<u8>> {
    if 0 < p.len() <= MAX_IP {
        Some(p)
    } else {
        None
    }
}

/// What a packet with a TCP segment leads to: one of the listener goes back to the
/// source of the connection, one of a connection goes to the listener.
pub open spec fn tcp_packet(
    table: NatView,
    listen: u16,
    p: Seq<u8>,
    h: int,
    src: Seq<u8>,
    dst: Seq<u8>,
    total: int,
    now: u64,
) -> (NatView, Option<Seq<u8>>) {
    match packet::tcp_of(p.subrange(h, total)) {
        None => (table, None),
        Some((sport, dport, _, _)) => if src == probe::server_ip() && sport == listen {
            let (c, v) = table.looked_back(dport, now);
            match c {
                None => (v, None),
                Some((s, d)) => (v, sendable(redirected(p, h, total, d, s))),
            }
        } else if dst == probe::server_ip() && dport == listen {
            (table, None)
        } else if !global_unicast(dst) || tun_prefix(dst) {
            (table, None)
        } else {
            let (port, v) = table.looked_up(
                EndView { ip: src, port: sport as u16 },
                EndView { ip: dst, port: dport as u16 },
                now,
            );
            match port {
                None => (v, None),
                Some(n) => (
                    v,
                    sendable(
                        redirected(
                            p,
                            h,
                            total,
                            EndView { ip: probe::client_ip(), port: n as u16 },
                            EndView { ip: probe::server_ip(), port: listen },
                        ),
                    ),
                ),
            }
        },
    }
}

/// What a packet with a UDP datagram leads to: a query is answered, anything else
/// is dropped.
pub open spec fn udp_packet(
    table: NatView,
    pool: PoolView,
    p: Seq<u8>,
    h: int,
    src: Seq<u8>,
    dst: Seq<u8>,
    total: int,
) -> (PoolView, Option<Seq<u8>>) {
    let u = p.subrange(h, total);
    match packet::udp_of(u) {
        None => (pool, None),
        Some((sport, dport, n)) => if dport == 53 {
            let (v, a) = dns_answer(table, pool, u.subrange(8, 8 + n));
            match a {
                None => (v, None),
                Some(b) => if 28 + b.len() <= MAX_IP {
                    (v, Some(dns_packet(src, dst, sport as u16, b)))
                } else {
                    (v, None)
                },
            }
        } else {
            (pool, None)
        },
    }
}

/// What a packet leads to: the tables after it, and the packet that is sent.
pub open spec fn processed(
    table: NatView,
    pool: PoolView,
    listen: u16,
    p: Seq<u8>,
    now: u64,
) -> (NatView, PoolView, Option<Seq<u8>>) {
    match packet::ipv4_of(p) {
        None => (table, pool, None),
        Some((h, proto, src, dst, total)) => if proto == packet::PROTO_UDP {
            let (v, r) = udp_packet(table, pool, p, h, src, dst, total);
            (table, v, r)
        } else if proto == packet::PROTO_TCP {
            let (v, r) = tcp_packet(table, listen, p, h, src, dst, total, now);
            (v, pool, r)
        } else {
            (table, pool, None)
        },
    }
}

fn redirect(p: &[u8], h: usize, total: usize, src: Endpoint, dst: Endpoint) -> (r: Option<Vec<u8>>)
    requires
        20 <= h,
        h + 20 <= total <= p@.len(),
    ensures
        codec::opt_bytes(r) == sendable(redirected(p@, h as int, total as int, src@, dst@)),
{
    let size: usize = p.len();
    let mut out = codec::copy(p);
    packet::set_addresses(&mut out, h, src.ip, dst.ip);
    packet::set_ports_at(&mut out, h, src.port, dst.port);
    packet::update_tcp_checksum(&mut out, h, src.ip, dst.ip);
    if total > MAX_IP {
        return None;
    }
    out.truncate(total);
    assert(out@ =~= redirected(p@, h as int, total as int, src@, dst@));
    Some(out)
}

fn process_tcp(
    table: &mut TcpNat,
    listen: u16,
    p: &[u8],
    h: usize,
    src: [u8; 4],
    dst: [u8; 4],
    total: usize,
    now: u64,
) -> (r: Option<Vec<u8>>)
    requires
        old(table).wf(),
        20 <= h <= total <= p@.len(),
    ensures
        final(table).wf(),
        (final(table)@, codec::opt_bytes(r)) == tcp_packet(
            old(table)@,
            listen,
            p@,
            h as int,
            src@,
            dst@,
            total as int,
            now,
        ),
{
    let seg = &p[h..total];
    assert(seg@ =~= p@.subrange(h as int, total as int));
    let (sport, dport, _, _) = match packet::parse_tcp(seg) {
        Some(x) => x,
        None => {
            return None;
        },
    };
    if ip::same_ipv4(src, probe::tun_server()) && sport == listen {
        return match table.lookup_back(dport, now) {
            None => None,
            Some((s, d)) => redirect(p, h, total, d, s),
        };
    }
    if ip::same_ipv4(dst, probe::tun_server()) && dport == listen {
        return None;
    }
    if !is_global_unicast(dst) || is_tun_prefix(dst) {
        return None;
    }
    let source = Endpoint { ip: src, port: sport };
    let destination = Endpoint { ip: dst, port: dport };
    match table.lookup(source, destination, now) {
        None => None,
        Some(port) => redirect(
            p,
            h,
            total,
            Endpoint { ip: probe::tun_client(), port },
            Endpoint { ip: probe::tun_server(), port: listen },
        ),
    }
}

fn process_udp(
    table: &TcpNat,
    pool: &mut FakeIpPool,
    p: &[u8],
    h: usize,
    src: [u8; 4],
    dst: [u8; 4],
    total: usize,
) -> (r: Option<Vec<u8>>)
    requires
        table.wf(),
        old(pool)@.wf(),
        h <= total <= p@.len(),
    ensures
        final(pool)@.wf(),
        (final(pool)@, codec::opt_bytes(r)) == udp_packet(
            table@,
            old(pool)@,
            p@,
            h as int,
            src@,
            dst@,
            total as int,
        ),
{
    let u = &p[h..total];
    assert(u@ =~= p@.subrange(h as int, total as int));
    let (sport, dport, n) = match packet::parse_udp(u) {
        Some(x) => x,
        None => {
            return None;
        },
    };
    if dport != 53 {
        return None;
    }
    let query = &u[8..8 + n];
    assert(query@ =~= u@.subrange(8, 8 + n));
    match answer_query(table, pool, query) {
        None => None,
        Some(a) => {
            if a.len() > MAX_IP - 28 {
                None
            } else {
                Some(build_dns_packet(src, dst, sport, a.as_slice()))
            }
        },
    }
}

/// Takes a packet of the virtual interface; what is returned is sent there.
pub fn process_packet(
    table: &mut TcpNat,
    pool: &mut FakeIpPool,
    listen_port: u16,
    p: &[u8],
    now: u64,
) -> (r: Option<Vec<u8>>)
    requires
        old(table).wf(),
        old(pool)@.wf(),
    ensures
        final(table).wf(),
        final(pool)@.wf(),
        (final(table)@, final(pool)@, codec::opt_bytes(r)) == processed(
            old(table)@,
            old(pool)@,
            listen_port,
            p@,
            now,
        ),
{
    let (h, proto, src, dst, total) = match packet::parse_ipv4(p) {
        Some(x) => x,
        None => {
            return None;
        },
    };
    if proto == packet::PROTO_UDP {
        return process_udp(table, pool, p, h, src, dst, total);
    }
    if proto != packet::PROTO_TCP {
        return None;
    }
    process_tcp(table, listen_port, p, h, src, dst, total, now)
}

// ---- connections of the listener ----
/// What becomes of a connection.
#[derive(Debug)]
pub enum Accepted {
    Drop,
    /// Queries are answered on it.
    Dns,
    Direct { host: Option<String>, ip: [u8; 4], port: u16 },
    /// It goes through the proxy, to a host and port.
    Proxy(String),
}

pub enum AcceptedView {
    Drop,
    Dns,
    Direct { host: Option<Seq<char>>, ip: Seq<u8>, port: u16 },
    Proxy(Seq<char>),
}

impl View for Accepted {
    type V = AcceptedView;

    open spec fn view(&self) -> AcceptedView {
        match self {
            Accepted::Drop => AcceptedView::Drop,
            Accepted::Dns => AcceptedView::Dns,
            Accepted::Direct { host, ip, port } => AcceptedView::Direct {
                host: text::opt_view(*host),
                ip: ip@,
                port: *port,
            },
            Accepted::Proxy(s) => AcceptedView::Proxy(s@),
        }
    }
}

/// A host or an address with a port.
pub open spec fn target_text(host: Seq<char>, port: u16) -> Seq<char> {
    host + ":"@ + text::dec(port as nat)
}

/// Whether a list of numbers holds an address.
pub open spec fn listed(blocked: Seq<u32>, o: Seq<u8>) -> bool {
    exists|i: int|
        0 <= i < blocked.len() && #[trigger] blocked[i] == codec::be32(o[0], o[1], o[2], o[3])
}

/// What becomes of a connection to a destination, and the names after it. One
/// that is of an earlier node is dropped.
pub open spec fn accepted(
    destination: EndView,
    fresh: bool,
    blocked: Seq<u32>,
    pool: PoolView,
    records: Map<Seq<char>, u8>,
) -> (PoolView, AcceptedView) {
    let ip = destination.ip;
    let port = destination.port;
    if !fresh {
        (pool, AcceptedView::Drop)
    } else if port == 53 {
        (pool, AcceptedView::Dns)
    } else if (port == 443 || port == 853) && listed(blocked, ip) {
        (pool, AcceptedView::Drop)
    } else {
        let (host, v) = pool.looked_back(ip);
        let action = match host {
            Some(h) => rules::host_action(records, h),
            None => rules::ip_action(IpView::V4(ip)),
        };
        (
            v,
            if host is None && fake_ip::fake(ip) {
                AcceptedView::Drop
            } else {
                match action {
                    RuleAction::Reject => AcceptedView::Drop,
                    RuleAction::Direct => AcceptedView::Direct { host, ip, port },
                    RuleAction::Proxy => AcceptedView::Proxy(
                        target_text(
                            match host {
                                Some(h) => h,
                                None => ip::ipv4_text(ip),
                            },
                            port,
                        ),
                    ),
                }
            },
        )
    }
}

fn join_port(host: &[char], port: u16) -> (r: String)
    ensures
        r@ == target_text(host@, port),
{
    let mut out: Vec<char> = Vec::new();
    text::append(&mut out, host);
    assert(out@ =~= host@);
    text::append_str(&mut out, ":");
    let d = text::format_dec(port as u64);
    text::append(&mut out, d.as_slice());
    text::string_of(out.as_slice())
}

/// Decides on a connection of the listener from a port. `fresh` says that the node
/// has not changed and that nothing was cancelled. Times are in milliseconds.
pub fn accept(
    table: &mut TcpNat,
    pool: &mut FakeIpPool,
    doh: &DohBlocklist,
    db: &mut RuleDb,
    port: u16,
    fresh: bool,
    now: u64,
) -> (r: Accepted)
    requires
        old(table).wf(),
        old(pool)@.wf(),
        old(db).wf(),
        now + utils::DEFAULT_TTL <= u64::MAX,
    ensures
        final(table).wf(),
        final(pool)@.wf(),
        final(db).wf(),
        final(db).records@ == old(db).records@,
        final(table)@ == old(table)@.looked_back(port as int, now).1,
        match old(table)@.looked_back(port as int, now).0 {
            None => r is Drop && final(pool)@ == old(pool)@,
            Some((_, d)) => (final(pool)@, r@) == accepted(
                d,
                fresh,
                doh.blocked@,
                old(pool)@,
                old(db).records@,
            ),
        },
{
    let dest: Endpoint = match table.lookup_back(port, now) {
        None => {
            return Accepted::Drop;
        },
        Some((_, d)) => d,
    };
    if !fresh {
        return Accepted::Drop;
    }
    if dest.port == 53 {
        return Accepted::Dns;
    }
    if (dest.port == 443 || dest.port == 853) && doh.is_blocked(Ip::V4(dest.ip)) {
        return Accepted::Drop;
    }
    let host = pool.lookback(dest.ip);
    if host.is_none() && FakeIpPool::is_fake_ip_v4(dest.ip) {
        return Accepted::Drop;
    }
    let action: RuleAction = match &host {
        Some(h) => db.match_domain(h.as_str(), now),
        None => rules::action_for_ip(Ip::V4(dest.ip)),
    };
    match action {
        RuleAction::Reject => Accepted::Drop,
        RuleAction::Direct => Accepted::Direct { host, ip: dest.ip, port: dest.port },
        RuleAction::Proxy => {
            let name = match &host {
                Some(h) => text::chars_of(h.as_str()),
                None => ip::format_ipv4(dest.ip),
            };
            Accepted::Proxy(join_port(name.as_slice(), dest.port))
        },
    }
}

/// How a connection that is not proxied is dialled.
#[derive(Debug)]
pub enum DirectPlan {
    /// The host is resolved first.
    Resolve(String),
    Connect(String),
}

/// The fake address of a host is no place to go to: the host is resolved.
pub fn direct_plan(host: Option<&str>, ip: [u8; 4], port: u16) -> (r: DirectPlan)
    ensures
        if host is Some && fake_ip::fake(ip@) {
            r is Resolve && r->Resolve_0@ == host->0@
        } else {
            r is Connect && r->Connect_0@ == target_text(ip::ipv4_text(ip@), port)
        },
{
    if let Some(h) = host {
        if FakeIpPool::is_fake_ip_v4(ip) {
            return DirectPlan::Resolve(h.to_owned());
        }
    }
    let a = ip::format_ipv4(ip);
    DirectPlan::Connect(join_port(a.as_slice(), port))
}

/// Where a host that was resolved is dialled.
pub fn resolved_target(host: &str, found: Option<[u8; 4]>, port: u16) -> (r: Result<String, String>)
    ensures
        match found {
            Some(o) => r is Ok && r->Ok_0@ == target_text(ip::ipv4_text(o@), port),
            None => r is Err && r->Err_0@ == "Direct DoH failed for "@ + host@,
        },
{
    match found {
        Some(o) => {
            let a = ip::format_ipv4(o);
            Ok(join_port(a.as_slice(), port))
        },
        None => {
            let mut m = text::chars_of("Direct DoH failed for ");
            text::append_str(&mut m, host);
            Err(text::string_of(m.as_slice()))
        },
    }
}

// ---- queries over TCP ----
/// What a connection with queries comes to.
#[derive(Debug)]
pub enum DnsTcp {
    More,
    End,
    /// An answer is sent, and so many bytes were used.
    Reply(Vec<u8>, usize),
}

pub enum DnsTcpView {
    More,
    End,
    Reply(Seq<u8>, int),
}

impl View for DnsTcp {
    type V = DnsTcpView;

    open spec fn view(&self) -> DnsTcpView {
        match self {
            DnsTcp::More => DnsTcpView::More,
            DnsTcp::End => DnsTcpView::End,
            DnsTcp::Reply(b, n) => DnsTcpView::Reply(b@, *n as int),
        }
    }
}

/// The next query of a connection: its length, and the query.
pub open spec fn dns_tcp_step(table: NatView, pool: PoolView, b: Seq<u8>) -> (PoolView, DnsTcpView) {
    if b.len() < 2 {
        (pool, DnsTcpView::More)
    } else {
        let n = codec::be16(b[0], b[1]);
        if n < 12 || n > 4096 {
            (pool, DnsTcpView::End)
        } else if b.len() < 2 + n {
            (pool, DnsTcpView::More)
        } else {
            let (v, a) = dns_answer(table, pool, b.subrange(2, 2 + n));
            match a {
                None => (v, DnsTcpView::End),
                Some(m) => (
                    v,
                    DnsTcpView::Reply(codec::be16_bytes(m.len() as int % 0x10000) + m, 2 + n),
                ),
            }
        }
    }
}

/// Answers the next query of a connection.
pub fn handle_dns_tcp(table: &TcpNat, pool: &mut FakeIpPool, buf: &[u8]) -> (r: DnsTcp)
    requires
        table.wf(),
        old(pool)@.wf(),
    ensures
        final(pool)@.wf(),
        (final(pool)@, r@) == dns_tcp_step(table@, old(pool)@, buf@),
{
    if buf.len() < 2 {
        return DnsTcp::More;
    }
    let n: usize = codec::read_be16(buf[0], buf[1]) as usize;
    if n < 12 || n > 4096 {
        return DnsTcp::End;
    }
    if buf.len() < 2 + n {
        return DnsTcp::More;
    }
    let query = &buf[2..2 + n];
    assert(query@ =~= buf@.subrange(2, 2 + n));
    match answer_query(table, pool, query) {
        None => DnsTcp::End,
        Some(a) => {
            let mut out: Vec<u8> = Vec::new();
            codec::push_be16(&mut out, (a.len() % 0x10000) as u16);
            codec::append(&mut out, a.as_slice());
            assert(out@ =~= codec::be16_bytes(a@.len() as int % 0x10000) + a@);
            DnsTcp::Reply(out, 2 + n)
        },
    }
}

// ---- the device ----
/// What it means that the device has no packet.
#[derive(Debug)]
pub enum Received {
    /// None is there yet.
    Empty,
    Ended,
    Fail(String),
}

pub fn receive_outcome(err: u32) -> (r: Received)
    ensures
        if err == 0 || err == 259 {
            r is Empty
        } else if err == 38 {
            r is Ended
        } else {
            r is Fail && r->Fail_0@ == "WintunReceivePacket "@ + text::dec(err as nat)
        },
{
    if err == 0 || err == 259 {
        Received::Empty
    } else if err == 38 {
        Received::Ended
    } else {
        let mut m = text::chars_of("WintunReceivePacket ");
        let d = text::format_dec(err as u64);
        text::append(&mut m, d.as_slice());
        Received::Fail(text::string_of(m.as_slice()))
    }
}

/// Counts changes of the node: connections of an earlier one are dropped.
#[derive(Debug)]
pub struct Generation {
    pub current: u64,
}

impl Generation {
    pub fn new() -> (r: Self)
        ensures
            r.current == 0,
    {
        Generation { current: 0 }
    }

    pub fn bump_generation(&mut self)
        ensures
            final(self).current == (if old(self).current == u64::MAX {
                0u64
            } else {
                (old(self).current + 1) as u64
            }),
            final(self).current != old(self).current,
    {
        self.current = if self.current == u64::MAX {
            0
        } else {
            self.current + 1
        };
    }

    pub fn is_current(&self, generation: u64) -> (r: bool)
        ensures
            r == (generation == self.current),
    {
        generation == self.current
    }
}

// ---- laws ----
/// What the listener sends back to the port that a connection got reaches the
/// source of the connection as if the destination had sent it: the packet that is
/// made of it has the destination and the source for its ends.
pub proof fn law_answer_reaches_source(
    table: NatView,
    listen: u16,
    p: Seq<u8>,
    total: int,
    source: EndView,
    destination: EndView,
    now: u64,
    later: u64,
)
    requires
        table.wf(),
        source.ip.len() == 4,
        destination.ip.len() == 4,
        table.looked_up(source, destination, now).0 is Some,
        20 <= total <= p.len(),
        total <= MAX_IP,
        packet::tcp_of(p.subrange(20, total)) is Some,
        (packet::tcp_of(p.subrange(20, total))->0).0 == listen,
        (packet::tcp_of(p.subrange(20, total))->0).1 == table.looked_up(
            source,
            destination,
            now,
        ).0->0,
    ensures
        ({
            let after = table.looked_up(source, destination, now).1;
            tcp_packet(
                after,
                listen,
                p,
                20,
                probe::server_ip(),
                probe::client_ip(),
                total,
                later,
            ).1 == Some(redirected(p, 20, total, destination, source))
        }),
{
    crate::tun::tcp_nat::law_port_leads_back(table, source, destination, now, later);
    assert(redirected(p, 20, total, destination, source).len() == total);
}

/// A name is resolved to a fake address that leads back to it.
pub proof fn law_answered_name_leads_back(table: NatView, pool: PoolView, query: Seq<u8>)
    requires
        pool.wf(),
        message::query_of(query) is Some,
        (message::query_of(query)->0).2 == 1,
        ({
            let host = utils::ascii_host((message::query_of(query)->0).1);
            ||| fake_ip::name_from(pool.entries, host, 0) is Some
            ||| fake_ip::search(
                pool.room(),
                table.destinations(),
                pool.next,
                fake_ip::TRIES as nat,
            ).0 is Some
        }),
    ensures
        ({
            let host = utils::ascii_host((message::query_of(query)->0).1);
            let n = pool.looked_up(host, table.destinations()).0;
            dns_answer(table, pool, query).0.looked_back(fake_ip::numbered_ip(n)).0 == Some(host)
        }),
{
    let host = utils::ascii_host((message::query_of(query)->0).1);
    fake_ip::law_lookup_leads_back(pool, host, table.destinations());
}

/// Every query that can be read gets an answer with its id, marked as a successful
/// response and with one question. A question for another type than IPv4 addresses
/// gets no records and leaves the pool as it was; one for IPv4 addresses gets a
/// single record.
pub proof fn law_every_query_is_answered(table: NatView, pool: PoolView, query: Seq<u8>)
    requires
        pool.wf(),
        message::query_of(query) is Some,
    ensures
        ({
            let (id, name, ty) = message::query_of(query)->0;
            let (after, answer) = dns_answer(table, pool, query);
            let m = answer->0;
            &&& answer is Some
            &&& m.len() > 16
            &&& m[0] == query[0] && m[1] == query[1]
            &&& m[2] >= 0x80 && m[3] % 16 == 0
            &&& m[4] == 0 && m[5] == 1
            &&& m[8] == 0 && m[9] == 0 && m[10] == 0 && m[11] == 0
            &&& (ty != 1 ==> {
                &&& after == pool
                &&& m[2] == 0x81 && m[3] == 0x80
                &&& m[6] == 0 && m[7] == 0
                &&& m.len() == 12 + message::question(name, ty).len()
                &&& m.skip(12) == message::question(name, ty)
            })
            &&& (ty == 1 ==> {
                let n = m.len() as int;
                &&& m[2] == 0x85 && m[3] == 0x80
                &&& m[6] == 0 && m[7] == 1
                &&& m.subrange(12, n - 16) == message::question(name, 1)
                &&& m.subrange(n - 16, n - 10) == seq![0xC0u8, 12u8, 0u8, 1u8, 0u8, 1u8]
                &&& m.subrange(n - 6, n - 4) == seq![0u8, 4u8]
                &&& m[n - 4] == 198 && m[n - 3] == 18
            })
        }),
{
    let (id, name, ty) = message::query_of(query)->0;
    let m = dns_answer(table, pool, query).1->0;
    codec::law_high_byte_first(id);
    assert(codec::be16_bytes(id)[0] == query[0] && codec::be16_bytes(id)[1] == query[1]);
    let q = message::question(name, ty);
    assert(q.len() >= 5);
    if ty == 1 {
        let k = pool.looked_up(utils::ascii_host(name), table.destinations()).0;
        let a = message::a_answer(300, fake_ip::numbered_ip(k));
        message::law_header_layout(id, 0x8580, 1, 1, q + a);
        message::law_record_layout(300, fake_ip::numbered_ip(k));
        assert(m =~= message::header(id, 0x8580, 1, 1) + (q + a));
        let n = m.len() as int;
        assert(m.subrange(12, n - 16) =~= q);
        assert(m.subrange(n - 16, n - 10) =~= a.take(6));
        assert(m.subrange(n - 6, n - 4) =~= seq![a[10], a[11]]);
        assert(m[n - 4] == a.skip(12)[0] && m[n - 3] == a.skip(12)[1]);
    } else {
        message::law_header_layout(id, 0x8180, 1, 0, q);
        assert(m.skip(12) =~= q);
    }
}

/// The answer repeats the question: its name, in its ASCII form, and its type are those
/// of the query.
pub proof fn law_answer_repeats_question(table: NatView, pool: PoolView, query: Seq<u8>)
    requires
        pool.wf(),
        message::query_of(query) is Some,
        text::pieces(utils::ascii_host((message::query_of(query)->0).1), "."@).len() <= 63,
        forall|i: int|
            0 <= i < text::pieces(
                utils::ascii_host((message::query_of(query)->0).1),
                "."@,
            ).len() ==> 0 < vstd::utf8::encode_utf8(
                #[trigger] text::pieces(
                    utils::ascii_host((message::query_of(query)->0).1),
                    "."@,
                )[i],
            ).len() < 64,
    ensures
        ({
            let (id, name, ty) = message::query_of(query)->0;
            let m = dns_answer(table, pool, query).1->0;
            let n = message::name_at(m, 12);
            &&& dns_answer(table, pool, query).1 is Some
            &&& n is Some
            &&& (n->0).0 == utils::ascii_host(name)
            &&& m[(n->0).1] * 256 + m[(n->0).1 + 1] == ty
        }),
{
    let (id, name, ty) = message::query_of(query)->0;
    let m = dns_answer(table, pool, query).1->0;
    let q = message::question(name, ty);
    if ty == 1 {
        let k = pool.looked_up(utils::ascii_host(name), table.destinations()).0;
        let a = message::a_answer(300, fake_ip::numbered_ip(k));
        message::law_question_reads_back(message::header(id, 0x8580, 1, 1), name, ty, a);
    } else {
        let h = message::header(id, 0x8180, 1, 0);
        message::law_question_reads_back(h, name, ty, Seq::empty());
        assert(h + q + Seq::<u8>::empty() =~= m);
    }
}

/// The packet with an answer is one that the asker accepts: an IPv4 packet from the
/// server that was asked to the asker, with a datagram from port 53 to the port that
/// asked, and checksums that add up.
pub proof fn law_answer_packet(asker: Seq<u8>, server: Seq<u8>, port: u16, answer: Seq<u8>)
    requires
        asker.len() == 4,
        server.len() == 4,
        28 + answer.len() <= 0xffff,
    ensures
        ({
            let p = dns_packet(asker, server, port, answer);
            let n = p.len() as int;
            &&& n == 28 + answer.len()
            &&& p[0] == 0x45
            &&& p[2] * 256 + p[3] == n
            &&& p[8] == 64
            &&& p[9] == 17
            &&& p.subrange(12, 16) == server
            &&& p.subrange(16, 20) == asker
            &&& p[20] == 0 && p[21] == 53
            &&& p[22] * 256 + p[23] == port
            &&& p[24] * 256 + p[25] == n - 20
            &&& p.skip(28) == answer
            &&& packet::folded(packet::words(p.take(20))) == 0xffff
            &&& packet::folded(
                packet::pseudo(server, asker, packet::PROTO_UDP, n - 20) + packet::words(
                    p.skip(20),
                ),
            ) == 0xffff
        }),
{
    let n = 28 + answer.len() as int;
    let blank = bare_header() + ip::zeros((8 + answer.len()) as nat);
    let one = packet::with_addresses(blank, 20, server, asker);
    packet::law_addresses_stand_at(blank, 20, server, asker);
    assert(one[0] == 0x45);
    let two = packet::with_total_length(one, n);
    let three = codec::put_at(one, 2, codec::be16_bytes(n));
    codec::law_high_byte_first(n);
    assert(two == packet::with_ip_checksum(three, 20));
    packet::law_header_checks(three, 20);
    let d = packet::datagram(53, port as int, answer, server, asker);
    packet::law_datagram_layout(53, port as int, answer, server, asker);
    packet::law_datagram_checks(53, port as int, answer, server, asker);
    let p = dns_packet(asker, server, port, answer);
    assert(p == codec::put_at(two, 20, d));
    assert(p.len() == n);
    assert(p.take(20) =~= two.take(20));
    assert(p.skip(20) =~= d);
    assert(p.skip(28) =~= d.skip(8));
    assert(p.subrange(12, 16) =~= one.subrange(12, 16));
    assert(p.subrange(16, 20) =~= one.subrange(16, 20));
    assert(p[2] == codec::be16_bytes(n)[0] && p[3] == codec::be16_bytes(n)[1]);
    assert forall|i: int| 0 <= i < 8 implies #[trigger] p[20 + i] == d[i] by {}
    assert(p[20] == d[0] && p[21] == d[1] && p[22] == d[2] && p[23] == d[3]);
    assert(p[24] == d[4] && p[25] == d[5]);
    assert(p[0] == two[0] && p[8] == two[8] && p[9] == two[9]);
}

/// A query in a datagram to port 53 is answered with a packet from the server that
/// was asked to the port that asked, whoever was asked; the payload of the packet is
/// the answer to the query.
pub proof fn law_query_packet_is_answered(
    table: NatView,
    pool: PoolView,
    listen: u16,
    p: Seq<u8>,
    query: Seq<u8>,
    now: u64,
)
    requires
        28 <= p.len() <= 0xffff,
        p[0] == 0x45,
        p[2] * 256 + p[3] == p.len(),
        p[9] == 17,
        p[22] == 0 && p[23] == 53,
        p[24] * 256 + p[25] == p.len() - 20,
        query == p.skip(28),
        dns_answer(table, pool, query).1 is Some,
        28 + dns_answer(table, pool, query).1->0.len() <= 0xffff,
    ensures
        ({
            let (t, after, sent) = processed(table, pool, listen, p, now);
            &&& t == table
            &&& after == dns_answer(table, pool, query).0
            &&& sent is Some
            &&& sent->0.subrange(12, 16) == p.subrange(16, 20)
            &&& sent->0.subrange(16, 20) == p.subrange(12, 16)
            &&& sent->0[20] == 0 && sent->0[21] == 53
            &&& sent->0[22] == p[20] && sent->0[23] == p[21]
            &&& sent->0.skip(28) == dns_answer(table, pool, query).1->0
        }),
{
    let n = p.len() as int;
    let u = p.subrange(20, n);
    let src = p.subrange(12, 16);
    let dst = p.subrange(16, 20);
    let sport = codec::be16(p[20], p[21]);
    lemma_query_packet(p);
    let (v, a) = dns_answer(table, pool, query);
    lemma_reply(p, a->0);
    let sent = dns_packet(src, dst, sport as u16, a->0);
    lemma_udp_processed(table, pool, listen, p, query, now);
    assert(processed(table, pool, listen, p, now) == (table, v, Some(sent)));
}

proof fn lemma_udp_processed(
    table: NatView,
    pool: PoolView,
    listen: u16,
    p: Seq<u8>,
    query: Seq<u8>,
    now: u64,
)
    requires
        packet::ipv4_of(p) == Some(
            (20int, 17u8, p.subrange(12, 16), p.subrange(16, 20), p.len() as int),
        ),
        packet::udp_of(p.subrange(20, p.len() as int)) == Some(
            (codec::be16(p[20], p[21]), 53int, p.len() - 28),
        ),
        p.len() >= 28,
        query == p.skip(28),
    ensures
        ({
            let (v, a) = dns_answer(table, pool, query);
            a is Some && 28 + a->0.len() <= 0xffff ==> processed(table, pool, listen, p, now) == (
                table,
                v,
                Some(
                    dns_packet(
                        p.subrange(12, 16),
                        p.subrange(16, 20),
                        codec::be16(p[20], p[21]) as u16,
                        a->0,
                    ),
                ),
            )
        }),
{
    let u = p.subrange(20, p.len() as int);
    assert(u.subrange(8, 8 + (p.len() - 28)) =~= query);
}

proof fn lemma_reply(p: Seq<u8>, a: Seq<u8>)
    requires
        p.len() >= 28,
        28 + a.len() <= 0xffff,
    ensures
        ({
            let sent = dns_packet(
                p.subrange(12, 16),
                p.subrange(16, 20),
                codec::be16(p[20], p[21]) as u16,
                a,
            );
            &&& sent.subrange(12, 16) == p.subrange(16, 20)
            &&& sent.subrange(16, 20) == p.subrange(12, 16)
            &&& sent[20] == 0 && sent[21] == 53
            &&& sent[22] == p[20] && sent[23] == p[21]
            &&& sent.skip(28) == a
        }),
{
    let port = codec::be16(p[20], p[21]) as u16;
    law_answer_packet(p.subrange(12, 16), p.subrange(16, 20), port, a);
    let x = dns_packet(p.subrange(12, 16), p.subrange(16, 20), port, a)[22];
    let y = dns_packet(p.subrange(12, 16), p.subrange(16, 20), port, a)[23];
    assert(x * 256 + y == p[20] * 256 + p[21]);
}

proof fn lemma_query_packet(p: Seq<u8>)
    requires
        28 <= p.len() <= 0xffff,
        p[0] == 0x45,
        p[2] * 256 + p[3] == p.len(),
        p[9] == 17,
        p[22] == 0 && p[23] == 53,
        p[24] * 256 + p[25] == p.len() - 20,
    ensures
        packet::ipv4_of(p) == Some(
            (20int, 17u8, p.subrange(12, 16), p.subrange(16, 20), p.len() as int),
        ),
        packet::udp_of(p.subrange(20, p.len() as int)) == Some(
            (codec::be16(p[20], p[21]), 53int, p.len() - 28),
        ),
{
    let u = p.subrange(20, p.len() as int);
    assert(u[0] == p[20] && u[1] == p[21] && u[2] == p[22] && u[3] == p[23]);
    assert(u[4] == p[24] && u[5] == p[25]);
}

/// A redirected packet has the given ends, and apart from them and the two
/// checksums it is the packet that came.
pub proof fn law_redirected_layout(p: Seq<u8>, h: int, total: int, src: EndView, dst: EndView)
    requires
        20 <= h,
        h + 20 <= total <= p.len(),
        src.ip.len() == 4,
        dst.ip.len() == 4,
    ensures
        ({
            let q = redirected(p, h, total, src, dst);
            &&& q.len() == total
            &&& q.subrange(12, 16) == src.ip
            &&& q.subrange(16, 20) == dst.ip
            &&& q[h] * 256 + q[h + 1] == src.port
            &&& q[h + 2] * 256 + q[h + 3] == dst.port
            &&& forall|i: int|
                0 <= i < 10 || 20 <= i < h || h + 4 <= i < h + 16 || h + 18 <= i < total
                    ==> #[trigger] q[i] == p[i]
        }),
{
    let a = packet::with_addresses(p, h, src.ip, dst.ip);
    let b = packet::with_ports(a, h, src.port as int, dst.port as int);
    let c = packet::with_tcp_checksum(b, h, src.ip, dst.ip);
    packet::law_addresses_stand_at(p, h, src.ip, dst.ip);
    packet::law_ports_stand_at(a, h, src.port as int, dst.port as int);
    packet::law_checksum_stands_at(b, h, src.ip, dst.ip);
    let q = redirected(p, h, total, src, dst);
    assert(q == c.take(total));
    assert(q.subrange(12, 16) =~= a.subrange(12, 16));
    assert(q.subrange(16, 20) =~= a.subrange(16, 20));
    assert forall|i: int|
        0 <= i < 10 || 20 <= i < h || h + 4 <= i < h + 16 || h + 18 <= i < total implies
        #[trigger] q[i] == p[i] by {
        assert(q[i] == c[i] && c[i] == b[i] && b[i] == a[i]);
    }
    assert(q[h] == b[h] && q[h + 1] == b[h + 1] && q[h + 2] == b[h + 2] && q[h + 3] == b[h + 3]);
}

/// A segment of a connection to a host that may be anywhere goes to the listener at
/// 172.19.0.1, as if 172.19.0.2 had sent it from the port that the connection got.
#[verifier::rlimit(60)]
pub proof fn law_connection_goes_to_listener(
    table: NatView,
    pool: PoolView,
    listen: u16,
    p: Seq<u8>,
    now: u64,
    source: EndView,
    destination: EndView,
)
    requires
        40 <= p.len() <= 0xffff,
        p[0] == 0x45,
        p[2] * 256 + p[3] == p.len(),
        p[9] == 6,
        p[32] / 16 == 5,
        source.ip == p.subrange(12, 16),
        destination.ip == p.subrange(16, 20),
        source.port == p[20] * 256 + p[21],
        destination.port == p[22] * 256 + p[23],
        p[12] != 172,
        p[16] != 0 && p[16] != 127 && p[16] != 169 && p[16] != 172 && p[16] < 224,
    ensures
        ({
            let (t, after, sent) = processed(table, pool, listen, p, now);
            let (port, v) = table.looked_up(source, destination, now);
            &&& after == pool
            &&& t == v
            &&& (port is None ==> sent is None)
            &&& (port is Some && 0 <= port->0 < 0x1_0000 ==> {
                &&& sent is Some
                &&& sent->0.len() == p.len()
                &&& sent->0.subrange(12, 16) == seq![172u8, 19u8, 0u8, 2u8]
                &&& sent->0.subrange(16, 20) == seq![172u8, 19u8, 0u8, 1u8]
                &&& sent->0[20] * 256 + sent->0[21] == port->0
                &&& sent->0[22] * 256 + sent->0[23] == listen
                &&& sent->0.subrange(24, 36) == p.subrange(24, 36)
                &&& sent->0.skip(38) == p.skip(38)
            })
        }),
{
    let n = p.len() as int;
    let u = p.subrange(20, n);
    assert(u[0] == p[20] && u[1] == p[21] && u[2] == p[22] && u[3] == p[23] && u[12] == p[32]);
    let src = p.subrange(12, 16);
    let dst = p.subrange(16, 20);
    assert(src[0] == p[12] && dst[0] == p[16]);
    assert(packet::tcp_of(u) is Some);
    assert(src != probe::server_ip()) by {
        assert(probe::server_ip()[0] == 172);
    }
    assert(dst != probe::server_ip()) by {
        assert(probe::server_ip()[0] == 172);
    }
    let sport = codec::be16(p[20], p[21]);
    let dport = codec::be16(p[22], p[23]);
    assert(source == EndView { ip: src, port: sport as u16 });
    assert(destination == EndView { ip: dst, port: dport as u16 });
    let (port, v) = table.looked_up(source, destination, now);
    if port is Some && 0 <= port->0 < 0x1_0000 {
        let a = EndView { ip: probe::client_ip(), port: port->0 as u16 };
        let b = EndView { ip: probe::server_ip(), port: listen };
        law_redirected_layout(p, 20, n, a, b);
        let q = redirected(p, 20, n, a, b);
        assert(processed(table, pool, listen, p, now).2 == Some(q));
        assert(q.subrange(24, 36) =~= p.subrange(24, 36));
        assert(q.skip(38) =~= p.skip(38));
    }
}

/// A connection to the address of a name goes to the name: through the proxy to the
/// name with the port, where the rules say so. Port 53 is for queries, and a
/// connection of an earlier node is dropped.
pub proof fn law_connection_goes_to_its_name(
    destination: EndView,
    blocked: Seq<u32>,
    pool: PoolView,
    records: Map<Seq<char>, u8>,
    host: Seq<char>,
)
    requires
        pool.looked_back(destination.ip).0 == Some(host),
    ensures
        accepted(destination, false, blocked, pool, records).1 is Drop,
        destination.port == 53 ==> accepted(destination, true, blocked, pool, records).1 is Dns,
        destination.port != 53 && destination.port != 443 && destination.port != 853 ==> ({
            let a = accepted(destination, true, blocked, pool, records).1;
            match rules::host_action(records, host) {
                RuleAction::Proxy => a == AcceptedView::Proxy(
                    host + seq![':'] + text::dec(destination.port as nat),
                ),
                RuleAction::Direct => a == (AcceptedView::Direct {
                    host: Some(host),
                    ip: destination.ip,
                    port: destination.port,
                }),
                RuleAction::Reject => a is Drop,
            }
        }),
        (destination.port == 443 || destination.port == 853) && listed(blocked, destination.ip)
            ==> accepted(destination, true, blocked, pool, records).1 is Drop,
{
    reveal_strlit(":");
    assert(":"@ =~= seq![':']);
}

/// A query over TCP stands behind its length; its answer is sent behind the length of
/// the answer, and as many bytes as the query took are used.
pub proof fn law_tcp_query_is_answered(
    table: NatView,
    pool: PoolView,
    query: Seq<u8>,
    b: Seq<u8>,
    rest: Seq<u8>,
)
    requires
        12 <= query.len() <= 4096,
        b.len() == 2 + query.len() + rest.len(),
        b[0] * 256 + b[1] == query.len(),
        b.subrange(2, 2 + query.len() as int) == query,
        b.skip(2 + query.len() as int) == rest,
        dns_answer(table, pool, query).1 is Some,
        dns_answer(table, pool, query).1->0.len() < 0x1_0000,
    ensures
        ({
            let (after, r) = dns_tcp_step(table, pool, b);
            let m = dns_answer(table, pool, query).1->0;
            &&& after == dns_answer(table, pool, query).0
            &&& r is Reply
            &&& r->Reply_0.len() == 2 + m.len()
            &&& r->Reply_0[0] * 256 + r->Reply_0[1] == m.len()
            &&& r->Reply_0.skip(2) == m
            &&& b.skip(r->Reply_1) == rest
        }),
{
    let m = dns_answer(table, pool, query).1->0;
    codec::law_high_byte_first(m.len() as int);
    let r = dns_tcp_step(table, pool, b).1;
    assert(r->Reply_0.skip(2) =~= m);
}

/// What becomes of a connection that arrives: one that is not new is dropped, one to port
/// 53 is a query, one to a listed resolver by HTTPS or TLS is dropped, and so is one to a
/// fake address that stands for no name; an address that stands for none is dialled
/// directly where its network is local, and through the proxy where not.
pub proof fn law_connection_is_routed(
    d: EndView,
    blocked: Seq<u32>,
    pool: PoolView,
    records: Map<Seq<char>, u8>,
)
    requires
        d.ip.len() == 4,
        pool.looked_back(d.ip).0 is None,
    ensures
        accepted(d, false, blocked, pool, records).1 is Drop,
        d.port == 53 ==> accepted(d, true, blocked, pool, records).1 is Dns,
        (d.port == 443 || d.port == 853) && listed(blocked, d.ip) ==> accepted(
            d,
            true,
            blocked,
            pool,
            records,
        ).1 is Drop,
        d.port != 53 && d.ip[0] == 198 && d.ip[1] == 18 && d.ip[2] > 0 ==> accepted(
            d,
            true,
            blocked,
            pool,
            records,
        ).1 is Drop,
        d.port != 53 && d.port != 443 && d.port != 853 && d.ip[0] != 198 && rules::local_ip(
            IpView::V4(d.ip),
        ) ==> accepted(d, true, blocked, pool, records).1 == (AcceptedView::Direct {
            host: None,
            ip: d.ip,
            port: d.port,
        }),
        d.port != 53 && d.port != 443 && d.port != 853 && d.ip[0] != 198 && !rules::local_ip(
            IpView::V4(d.ip),
        ) ==> accepted(d, true, blocked, pool, records).1 == AcceptedView::Proxy(
            ip::ipv4_text(d.ip) + ":"@ + text::dec(d.port as nat),
        ),
{
}

/// A resolver is listed by its address as a number, the first octet highest.
pub proof fn law_listed_resolvers(blocked: Seq<u32>, a: u8, b: u8, c: u8, d: u8)
    ensures
        listed(blocked, seq![a, b, c, d]) <==> blocked.contains(
            (a * 0x1000000 + b * 0x10000 + c * 0x100 + d) as u32,
        ),
{
    let o = seq![a, b, c, d];
    assert(o[0] == a && o[1] == b && o[2] == c && o[3] == d);
    let n = a * 0x1000000 + b * 0x10000 + c * 0x100 + d;
    assert(codec::be32(a, b, c, d) == n);
    if blocked.contains(n as u32) {
        let i = choose|i: int| 0 <= i < blocked.len() && blocked[i] == n as u32;
        assert(blocked[i] == codec::be32(o[0], o[1], o[2], o[3]));
    }
}

/// The network of the virtual interface: the four addresses from 172.19.0.0 on.
pub proof fn law_virtual_network(o: Seq<u8>)
    requires
        o.len() == 4,
    ensures
        tun_prefix(o) <==> o == seq![172u8, 19u8, 0u8, 0u8] || o == seq![172u8, 19u8, 0u8, 1u8] || o
            == seq![172u8, 19u8, 0u8, 2u8] || o == seq![172u8, 19u8, 0u8, 3u8],
{
    let s = seq![172u8, 19u8, 0u8, o[3]];
    if tun_prefix(o) {
        assert(o =~= s);
    }
}

} // verus!
