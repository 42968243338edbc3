//! Relaying: traffic counters, error answers, dial targets and the first TLS
//! record of a client.

use vstd::prelude::*;

use crate::codec;
use crate::ip;
use crate::ip::{Ip, IpView};
use crate::rules;
use crate::text;

verus! {

// ---- counters ----
/// Bytes in both directions, in all and since the last snapshot.
#[derive(Debug)]
pub struct TrafficCounters {
    pub upload: i64,
    pub download: i64,
    pub win_up: i64,
    pub win_down: i64,
    pub win_start: i64,
}

/// A quotient without its fraction.
pub open spec fn whole(a: int, b: int) -> int {
    if a < 0 {
        -(-a / b)
    } else {
        a / b
    }
}

/// A number of bytes in a time of milliseconds, as kilobytes per second. A counter that
/// has wrapped may be below zero.
pub open spec fn kbps(bytes: i64, elapsed: int) -> i32 {
    (whole(whole(bytes * 1000, elapsed), 1000) as i64) as i32
}

/// A sum of 32 bit numbers that stops at the largest and smallest one.
pub open spec fn saturated(n: int) -> int {
    if n > i32::MAX {
        i32::MAX as int
    } else if n < i32::MIN {
        i32::MIN as int
    } else {
        n
    }
}

/// Whether a snapshot at a time gives this speed and leaves the counters like this: the
/// window begins anew, and what was counted in all stays.
pub open spec fn snapshot(c: TrafficCounters, now: i64, after: TrafficCounters, r: i32) -> bool {
    let elapsed = if now - c.win_start < 1 {
        1
    } else {
        now - c.win_start
    };
    &&& r == saturated(kbps(c.win_up, elapsed) + kbps(c.win_down, elapsed))
    &&& after.win_start == now
    &&& after.win_up == 0
    &&& after.win_down == 0
    &&& after.upload == c.upload
    &&& after.download == c.download
}

/// A snapshot takes what the window holds: one behind it, with nothing counted between
/// the two, gives no speed.
pub proof fn law_snapshot_drains(
    a: TrafficCounters,
    first: i64,
    b: TrafficCounters,
    speed: i32,
    second: i64,
    c: TrafficCounters,
    again: i32,
)
    requires
        snapshot(a, first, b, speed),
        snapshot(b, second, c, again),
    ensures
        again == 0,
        c.upload == a.upload && c.download == a.download,
{
    let elapsed = if second - b.win_start < 1 {
        1
    } else {
        second - b.win_start
    };
    assert(0int / elapsed == 0) by (nonlinear_arith)
        requires
            elapsed >= 1,
    ;
}

impl TrafficCounters {
    pub fn new() -> (r: Self)
        ensures
            r.upload == 0 && r.download == 0 && r.win_up == 0 && r.win_down == 0 && r.win_start
                == 0,
    {
        TrafficCounters { upload: 0, download: 0, win_up: 0, win_down: 0, win_start: 0 }
    }

    /// Counts bytes that were sent; the counters wrap.
    pub fn add_upload(&mut self, n: usize)
        ensures
            final(self).upload == old(self).upload.wrapping_add(n as i64),
            final(self).win_up == old(self).win_up.wrapping_add(n as i64),
            final(self).download == old(self).download,
            final(self).win_down == old(self).win_down,
            final(self).win_start == old(self).win_start,
    {
        self.upload = self.upload.wrapping_add(n as i64);
        self.win_up = self.win_up.wrapping_add(n as i64);
    }

    /// Counts bytes that were received; the counters wrap.
    pub fn add_download(&mut self, n: usize)
        ensures
            final(self).download == old(self).download.wrapping_add(n as i64),
            final(self).win_down == old(self).win_down.wrapping_add(n as i64),
            final(self).upload == old(self).upload,
            final(self).win_up == old(self).win_up,
            final(self).win_start == old(self).win_start,
    {
        self.download = self.download.wrapping_add(n as i64);
        self.win_down = self.win_down.wrapping_add(n as i64);
    }

    /// The speed of both directions together since the last snapshot, in
    /// kilobytes per second; the window begins anew.
    pub fn snapshot_total_kbps(&mut self, now: i64) -> (r: i32)
        requires
            -(i64::MAX / 1000) <= old(self).win_up <= i64::MAX / 1000,
            -(i64::MAX / 1000) <= old(self).win_down <= i64::MAX / 1000,
            i64::MIN <= now - old(self).win_start <= i64::MAX,
        ensures
            snapshot(*old(self), now, *final(self), r),
    {
        let span: i64 = now - self.win_start;
        let elapsed: i64 = if span < 1 {
            1
        } else {
            span
        };
        self.win_start = now;
        let up: i64 = self.win_up;
        let down: i64 = self.win_down;
        self.win_up = 0;
        self.win_down = 0;
        let u: i64 = speed(up, elapsed);
        let d: i64 = speed(down, elapsed);
        let up_k: i32 = u as i32;
        let down_k: i32 = d as i32;
        let sum: i64 = up_k as i64 + down_k as i64;
        if sum > i32::MAX as i64 {
            i32::MAX
        } else if sum < i32::MIN as i64 {
            i32::MIN
        } else {
            sum as i32
        }
    }
}

fn positive_speed(bytes: i64, elapsed: i64) -> (r: i64)
    requires
        0 <= bytes <= i64::MAX / 1000,
        1 <= elapsed,
    ensures
        r == bytes * 1000 / (elapsed as int) / 1000,
        0 <= r,
{
    let scaled: u64 = (bytes * 1000) as u64;
    let e: u64 = elapsed as u64;
    let a: u64 = scaled / e;
    proof {
        assert(a <= scaled) by (nonlinear_arith)
            requires
                a == scaled / e,
                e >= 1,
        ;
    }
    (a / 1000) as i64
}

fn speed(bytes: i64, elapsed: i64) -> (r: i64)
    requires
        -(i64::MAX / 1000) <= bytes <= i64::MAX / 1000,
        1 <= elapsed,
    ensures
        r == whole(whole(bytes * 1000, elapsed as int), 1000),
{
    if bytes < 0 {
        let b: i64 = -bytes;
        let r: i64 = positive_speed(b, elapsed);
        proof {
            let q = -(bytes * 1000) / (elapsed as int);
            assert(b * 1000 == -(bytes * 1000));
            assert(q >= 0) by (nonlinear_arith)
                requires
                    q == -(bytes * 1000) / (elapsed as int),
                    bytes < 0,
                    elapsed >= 1,
            ;
        }
        -r
    } else {
        proof {
            let q = (bytes * 1000) / (elapsed as int);
            assert(q >= 0) by (nonlinear_arith)
                requires
                    q == (bytes * 1000) / (elapsed as int),
                    bytes >= 0,
                    elapsed >= 1,
            ;
        }
        positive_speed(bytes, elapsed)
    }
}

// ---- relaying ----
/// What happened to one direction of a relay.
#[derive(Clone, Copy, Debug, PartialEq, Eq, Structural)]
pub enum HalfEvent {
    /// The relay was stopped.
    Stopped,
    /// The source ended.
    Eof,
    /// The source failed.
    ReadFailed,
    /// Bytes were read.
    Data,
    /// Bytes were written.
    Written,
    /// The destination failed.
    WriteFailed,
}

/// What one direction of a relay does next.
#[derive(Clone, Copy, Debug, PartialEq, Eq, Structural)]
pub enum HalfAction {
    /// Note the time and write what was read.
    Write,
    /// Count the bytes and read on.
    Read,
    /// Close the destination and end; with `stop` the other direction ends too.
    Close { stop: bool },
    /// End without closing the destination, and stop the other direction.
    Abort,
}

/// Relays both directions; the end of a source closes its destination, and a
/// failure stops both directions.
pub struct Relay;

impl Relay {
    pub fn half_step(e: HalfEvent) -> (r: HalfAction)
        ensures
            r == (match e {
                HalfEvent::Stopped => HalfAction::Close { stop: false },
                HalfEvent::Eof => HalfAction::Close { stop: false },
                HalfEvent::ReadFailed => HalfAction::Close { stop: true },
                HalfEvent::Data => HalfAction::Write,
                HalfEvent::Written => HalfAction::Read,
                HalfEvent::WriteFailed => HalfAction::Abort,
            }),
    {
        match e {
            HalfEvent::Stopped => HalfAction::Close { stop: false },
            HalfEvent::Eof => HalfAction::Close { stop: false },
            HalfEvent::ReadFailed => HalfAction::Close { stop: true },
            HalfEvent::Data => HalfAction::Write,
            HalfEvent::Written => HalfAction::Read,
            HalfEvent::WriteFailed => HalfAction::Abort,
        }
    }

    /// Whether nothing was read in either direction for ten minutes. Times are
    /// in milliseconds.
    pub fn is_idle(now: u64, last: u64) -> (r: bool)
        ensures
            r == (now - last >= IDLE_MS),
    {
        now >= last && now - last >= IDLE_MS
    }

    /// The head and body of an error answer.
    pub fn http_error(status: u16, reason: &str) -> (r: (String, String))
        ensures
            r.1@ == reason@ + "\n"@,
            r.0@ == error_head(status, vstd::utf8::encode_utf8(reason@ + "\n"@).len()),
    {
        let mut body: Vec<char> = Vec::new();
        text::append_str(&mut body, reason);
        text::append_str(&mut body, "\n");
        assert(body@ =~= reason@ + "\n"@);
        let body = text::string_of(body.as_slice());
        let len: usize = body.as_str().as_bytes().len();
        let s = text::format_dec(status as u64);
        let l = text::format_dec(len as u64);
        let p: &str = match status {
            400 => "Bad Request",
            403 => "Forbidden",
            503 => "Service Unavailable",
            500 => "Internal Server Error",
            _ => "Error",
        };
        let mut head: Vec<char> = Vec::new();
        text::append_str(&mut head, "HTTP/1.1 ");
        text::append(&mut head, s.as_slice());
        text::append_str(&mut head, " ");
        text::append_str(&mut head, p);
        text::append_str(
            &mut head,
            "\r\nContent-Type: text/plain; charset=utf-8\r\nContent-Length: ",
        );
        text::append(&mut head, l.as_slice());
        text::append_str(&mut head, "\r\nConnection: close\r\n\r\n");
        assert(head@ =~= error_head(status, len as nat));
        (text::string_of(head.as_slice()), body)
    }
}

/// How long a relay may be idle.
pub const IDLE_MS: u64 = 600000;

/// The phrase of a status.
pub open spec fn phrase(status: u16) -> Seq<char> {
    if status == 400 {
        "Bad Request"@
    } else if status == 403 {
        "Forbidden"@
    } else if status == 503 {
        "Service Unavailable"@
    } else if status == 500 {
        "Internal Server Error"@
    } else {
        "Error"@
    }
}

/// The head of an error answer with a body of `len` bytes.
pub open spec fn error_head(status: u16, len: nat) -> Seq<char> {
    "HTTP/1.1 "@ + text::dec(status as nat) + " "@ + phrase(status)
        + "\r\nContent-Type: text/plain; charset=utf-8\r\nContent-Length: "@ + text::dec(len)
        + "\r\nConnection: close\r\n\r\n"@
}

// ---- dial targets ----
/// Where a direct connection goes.
#[derive(Debug)]
pub enum Target {
    Address(Ip, u16),
    Name(String, u16),
}

/// Host and port of a target: an authority, else what stands around the last
/// colon.
pub open spec fn target_parts(s: Seq<char>) -> Option<(Seq<char>, Seq<char>)> {
    match rules::host_port(s) {
        Some(p) => Some(p),
        None => text::cut_last(s, ':'),
    }
}

/// Connects without a proxy.
pub struct DirectDial;

impl DirectDial {
    pub fn target(host_port: &str) -> (r: Result<Target, String>)
        ensures
            match target_parts(host_port@) {
                None => r is Err && r->Err_0@ == "invalid host:port"@,
                Some((h, p)) => match text::unsigned_value(p, 0xffff) {
                    None => r is Err && r->Err_0@ == "invalid port"@,
                    Some(n) => {
                        let host = text::without_any(h, "[]"@);
                        match ip::ip_of(host) {
                            Some(i) => r is Ok && (r->Ok_0 matches Target::Address(a, q) && a@ == i
                                && q == n),
                            None => r is Ok && (r->Ok_0 matches Target::Name(a, q) && a@ == host
                                && q == n),
                        }
                    },
                },
            },
    {
        let c = text::chars_of(host_port);
        let (h, p): (Vec<char>, Vec<char>) = match rules::try_split_host_port(host_port) {
            Some((h, p)) => (text::chars_of(h.as_str()), text::chars_of(p.as_str())),
            None => match text::rsplit_once(c.as_slice(), ':') {
                Some((a, b)) => {
                    let a = text::string_of(a);
                    let b = text::string_of(b);
                    (text::chars_of(a.as_str()), text::chars_of(b.as_str()))
                },
                None => return Err("invalid host:port".to_owned()),
            },
        };
        let port: u16 = match text::parse_u16(p.as_slice()) {
            Some(n) => n,
            None => return Err("invalid port".to_owned()),
        };
        let host = text::trim_any(h.as_slice(), "[]");
        match ip::parse_ip(host) {
            Some(i) => Ok(Target::Address(i, port)),
            None => Ok(Target::Name(text::string_of(host), port)),
        }
    }
}

/// The addresses of one kind, in order.
pub open spec fn of_kind(v: Seq<IpView>, six: bool) -> Seq<IpView>
    decreases v.len(),
{
    if v.len() == 0 {
        Seq::empty()
    } else {
        let head = of_kind(v.drop_last(), six);
        if (v.last() is V6) == six {
            head.push(v.last())
        } else {
            head
        }
    }
}

/// The addresses with those of IPv4 first, each kind in order.
pub open spec fn four_first(v: Seq<IpView>) -> Seq<IpView> {
    of_kind(v, false) + of_kind(v, true)
}

pub open spec fn ip_views(v: Seq<Ip>) -> Seq<IpView> {
    Seq::new(v.len(), |i: int| v[i]@)
}

fn push_kind(out: &mut Vec<Ip>, v: &[Ip], six: bool)
    ensures
        ip_views(final(out)@) == ip_views(old(out)@) + of_kind(ip_views(v@), six),
{
    let ghost start = ip_views(out@);
    let ghost vs = ip_views(v@);
    let mut i: usize = 0;
    assert(ip_views(out@) =~= start + of_kind(vs.take(0), six));
    while i < v.len()
        invariant
            i <= v@.len(),
            vs == ip_views(v@),
            ip_views(out@) == start + of_kind(vs.take(i as int), six),
        decreases v@.len() - i,
    {
        let ghost here = ip_views(out@);
        let ghost done = of_kind(vs.take(i as int), six);
        proof {
            assert(vs.take(i + 1).drop_last() =~= vs.take(i as int));
            assert(vs.take(i + 1).last() == v@[i as int]@);
        }
        let is_six = match v[i] {
            Ip::V4(_) => false,
            Ip::V6(_) => true,
        };
        if is_six == six {
            out.push(v[i]);
            proof {
                assert(ip_views(out@) =~= here.push(v@[i as int]@));
                assert(here.push(v@[i as int]@) =~= start + done.push(v@[i as int]@));
            }
        }
        i += 1;
    }
    assert(vs.take(i as int) =~= vs);
}

/// The addresses with those of IPv4 first.
pub fn sort_four_first(v: &[Ip]) -> (r: Vec<Ip>)
    ensures
        ip_views(r@) == four_first(ip_views(v@)),
{
    let mut out: Vec<Ip> = Vec::new();
    push_kind(&mut out, v, false);
    push_kind(&mut out, v, true);
    assert(ip_views(out@) =~= four_first(ip_views(v@)));
    out
}

/// How long an attempt waits before it starts, by its position, in
/// milliseconds.
pub fn attempt_delay(i: usize) -> (r: u64)
    requires
        250 * i <= u64::MAX,
    ensures
        r == 250 * i,
{
    250 * i as u64
}

/// A race of connection attempts: the first success wins; it is lost when all
/// have failed.
#[derive(Debug)]
pub struct Race {
    pub left: usize,
    pub last: Option<String>,
}

/// What a race has come to.
#[derive(Debug)]
pub enum RaceState {
    Open,
    Won,
    Lost(String),
}

impl Race {
    pub fn new(attempts: usize) -> (r: Self)
        ensures
            r.left == attempts,
            r.last is None,
    {
        Race { left: attempts, last: None }
    }

    /// One attempt ended: without an error it wins the race.
    pub fn ended(&mut self, error: Option<String>) -> (r: RaceState)
        requires
            old(self).left > 0,
        ensures
            match error {
                None => r is Won && *final(self) == *old(self),
                Some(e) => final(self).left == old(self).left - 1 && final(self).last == Some(e)
                    && (if old(self).left == 1 {
                    r matches RaceState::Lost(m) && m@ == e@
                } else {
                    r is Open
                }),
            },
    {
        match error {
            None => RaceState::Won,
            Some(e) => {
                self.left = self.left - 1;
                let m = e.clone();
                self.last = Some(e);
                if self.left == 0 {
                    RaceState::Lost(m)
                } else {
                    RaceState::Open
                }
            },
        }
    }
}

// ---- the first TLS record ----
/// The length of the handshake record that data begins with, once it is whole.
pub open spec fn record_len(d: Seq<u8>) -> Option<int> {
    if d.len() < 5 || d[0] != 0x16 || codec::be16(d[3], d[4]) > 16384 || d.len() < 5 + codec::be16(
        d[3],
        d[4],
    ) {
        None
    } else {
        Some(5 + codec::be16(d[3], d[4]))
    }
}

pub fn complete_record_len(data: &[u8]) -> (r: Option<usize>)
    ensures
        (match r {
            Some(n) => Some(n as int),
            None => None,
        }) == record_len(data@),
{
    if data.len() < 5 || data[0] != 0x16 {
        return None;
    }
    let frag: usize = codec::read_be16(data[3], data[4]) as usize;
    if frag > 16384 {
        return None;
    }
    if data.len() >= 5 + frag {
        Some(5 + frag)
    } else {
        None
    }
}

/// The longest first write that fits one padded frame.
pub const VISION_MAX: usize = 8171;

/// Collects the first bytes of a client until its first TLS record is whole.
#[derive(Debug)]
pub struct TlsHelloCoalesce {
    pub data: Vec<u8>,
}

/// What the collected bytes call for.
#[derive(Clone, Copy, Debug, PartialEq, Eq, Structural)]
pub enum HelloStep {
    /// More bytes are needed.
    Read,
    /// All bytes are to be written; the first record has a length, and may fit
    /// a padded frame.
    Flush { len: usize, fits: bool },
}

/// The step for collected bytes; `ended` says that no more will come. Bytes
/// that are no handshake are not waited for, nor is a record that would be too
/// long.
pub open spec fn hello_step(d: Seq<u8>, ended: bool) -> HelloStep {
    if d.len() > 0 && d[0] != 0x16 {
        HelloStep::Flush { len: d.len() as usize, fits: d.len() <= VISION_MAX }
    } else {
        match record_len(d) {
            Some(n) => HelloStep::Flush { len: n as usize, fits: n <= VISION_MAX },
            None => if d.len() >= 16384 || ended {
                HelloStep::Flush {
                    len: d.len() as usize,
                    fits: d.len() > 0 && d.len() <= VISION_MAX,
                }
            } else {
                HelloStep::Read
            },
        }
    }
}

impl TlsHelloCoalesce {
    pub fn new(seed: &[u8]) -> (r: Self)
        ensures
            r.data@ == seed@,
    {
        TlsHelloCoalesce { data: codec::copy(seed) }
    }

    /// Adds bytes that were read.
    pub fn push(&mut self, bytes: &[u8])
        ensures
            final(self).data@ == old(self).data@ + bytes@,
    {
        codec::append(&mut self.data, bytes);
    }

    pub fn step(&self, ended: bool) -> (r: HelloStep)
        ensures
            r == hello_step(self.data@, ended),
    {
        let n: usize = self.data.len();
        if n > 0 && self.data[0] != 0x16 {
            return HelloStep::Flush { len: n, fits: n <= VISION_MAX };
        }
        if let Some(rec) = complete_record_len(self.data.as_slice()) {
            return HelloStep::Flush { len: rec, fits: rec <= VISION_MAX };
        }
        if n >= 16384 || ended {
            return HelloStep::Flush { len: n, fits: n > 0 && n <= VISION_MAX };
        }
        HelloStep::Read
    }
}

/// Collecting ends: with 16 kilobytes at the latest there is something to do.
pub proof fn law_collecting_ends(d: Seq<u8>)
    requires
        d.len() >= 16384,
        d.len() <= usize::MAX,
    ensures
        hello_step(d, false) is Flush,
{
}

/// A length that is said to fit is one of a written part, and fits.
pub proof fn law_flushed_length(d: Seq<u8>, ended: bool)
    requires
        d.len() <= usize::MAX,
    ensures
        match hello_step(d, ended) {
            HelloStep::Flush { len, fits } => len <= d.len() && (fits ==> 0 < len <= VISION_MAX),
            HelloStep::Read => true,
        },
{
}

// ---- laws ----
/// An error answer names its status and phrase, plain text, the length of its body, and
/// that the connection is closed.
pub proof fn law_error_lines(len: nat)
    ensures
        ({
            let rest = "\r\nContent-Type: text/plain; charset=utf-8\r\nContent-Length: "@
                + text::dec(len) + "\r\nConnection: close\r\n\r\n"@;
            &&& error_head(400, len) == "HTTP/1.1 "@ + text::dec(400) + " "@ + "Bad Request"@ + rest
            &&& error_head(403, len) == "HTTP/1.1 "@ + text::dec(403) + " "@ + "Forbidden"@ + rest
            &&& error_head(503, len) == "HTTP/1.1 "@ + text::dec(503) + " "@
                + "Service Unavailable"@ + rest
        }),
{
    let rest = "\r\nContent-Type: text/plain; charset=utf-8\r\nContent-Length: "@ + text::dec(len)
        + "\r\nConnection: close\r\n\r\n"@;
    assert(error_head(400, len) =~= "HTTP/1.1 "@ + text::dec(400) + " "@ + "Bad Request"@ + rest);
    assert(error_head(403, len) =~= "HTTP/1.1 "@ + text::dec(403) + " "@ + "Forbidden"@ + rest);
    assert(error_head(503, len) =~= "HTTP/1.1 "@ + text::dec(503) + " "@ + "Service Unavailable"@
        + rest);
}

/// The first record is whole with its head of five bytes and as many bytes as the head
/// says; only a handshake record of at most 16 kilobytes is waited for.
pub proof fn law_first_record(d: Seq<u8>, n: int)
    requires
        d.len() >= 5,
        d[0] == 22,
        n == d[3] * 256 + d[4],
        n <= 16384,
        d.len() <= usize::MAX,
    ensures
        d.len() >= 5 + n ==> hello_step(d, false) == (HelloStep::Flush {
            len: (5 + n) as usize,
            fits: 5 + n <= 8171,
        }),
        d.len() < 5 + n && d.len() < 16384 ==> hello_step(d, false) == HelloStep::Read,
{
}

/// Data that is no handshake is written at once.
pub proof fn law_other_data_is_not_held(d: Seq<u8>)
    requires
        0 < d.len() <= 8171,
        d[0] != 22,
    ensures
        hello_step(d, false) == (HelloStep::Flush { len: d.len() as usize, fits: true }),
{
}

proof fn lemma_of_kind(v: Seq<IpView>, six: bool)
    ensures
        forall|i: int|
            0 <= i < of_kind(v, six).len() ==> ((#[trigger] of_kind(v, six)[i]) is V6) == six,
        of_kind(v, false).len() + of_kind(v, true).len() == v.len(),
    decreases v.len(),
{
    if v.len() > 0 {
        lemma_of_kind(v.drop_last(), six);
        lemma_of_kind(v.drop_last(), !six);
    }
}

/// Every IPv4 address comes before every IPv6 address, and none is lost.
pub proof fn law_four_before_six(v: Seq<IpView>, i: int, j: int)
    requires
        0 <= i < j < four_first(v).len(),
        four_first(v)[i] is V6,
    ensures
        four_first(v)[j] is V6,
        four_first(v).len() == v.len(),
{
    lemma_of_kind(v, false);
    lemma_of_kind(v, true);
    let n = of_kind(v, false).len() as int;
    if i < n {
        assert(four_first(v)[i] == of_kind(v, false)[i]);
    }
    assert(four_first(v)[j] == of_kind(v, true)[j - n]);
}

/// The speed of a window is its bytes over its milliseconds, in whole kilobytes per
/// second.
pub proof fn law_speed_is_bytes_over_time(bytes: i64, elapsed: int)
    requires
        0 <= bytes < 0x8000_0000,
        1 <= elapsed,
    ensures
        kbps(bytes, elapsed) == bytes as int / elapsed,
{
    let b = bytes as int;
    vstd::arithmetic::div_mod::lemma_div_denominator(b * 1000, elapsed, 1000);
    vstd::arithmetic::div_mod::lemma_div_multiples_vanish_quotient(1000, b, elapsed);
    vstd::arithmetic::mul::lemma_mul_is_commutative(elapsed, 1000);
    vstd::arithmetic::mul::lemma_mul_is_commutative(b, 1000);
    assert((b * 1000) / elapsed / 1000 == b / elapsed);
    vstd::arithmetic::div_mod::lemma_div_pos_is_pos(b * 1000, elapsed);
    vstd::arithmetic::div_mod::lemma_div_pos_is_pos(b, elapsed);
    vstd::arithmetic::div_mod::lemma_div_is_ordered_by_denominator(b, 1, elapsed);
}

/// A target is a host and a port with a colon between them, also where the host is an IPv6
/// address in brackets or a bare one.
pub proof fn law_target_is_parted(h: Seq<char>, p: Seq<char>)
    requires
        h.len() > 0,
        p.len() > 0,
        h[0] != '[',
        !h.contains(']'),
        !p.contains(':'),
    ensures
        !h.contains(':') ==> target_parts(h + seq![':'] + p) == Some((h, p)),
        h.contains(':') ==> target_parts(seq!['['] + h + seq![']', ':'] + p) == Some((h, p)),
{
    rules::law_split_undoes_join(h, p);
}

} // verus!
