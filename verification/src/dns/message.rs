//! DNS messages.

use vstd::prelude::*;

use crate::codec;
use crate::text;
use crate::utils;

verus! {

/// The labels of the name at `off` and the position behind it. At most `fuel`
/// labels and pointers are followed; the position behind a pointer is fixed by
/// the first one, and `end` holds it once there was one.
pub open spec fn labels_at(
    msg: Seq<u8>,
    off: int,
    end: Option<int>,
    fuel: nat,
) -> Option<(Seq<Seq<u8>>, int)>
    decreases fuel,
{
    if fuel == 0 || off >= msg.len() {
        None
    } else {
        let n = msg[off] as int;
        if n == 0 {
            Some(
                (
                    Seq::empty(),
                    match end {
                        Some(e) => e,
                        None => off + 1,
                    },
                ),
            )
        } else if n >= 0xC0 {
            if off + 1 >= msg.len() {
                None
            } else {
                labels_at(
                    msg,
                    (n - 0xC0) * 256 + msg[off + 1],
                    Some(
                        match end {
                            Some(e) => e,
                            None => off + 2,
                        },
                    ),
                    (fuel - 1) as nat,
                )
            }
        } else if off + 1 + n > msg.len() {
            None
        } else {
            match labels_at(msg, off + 1 + n, end, (fuel - 1) as nat) {
                Some((rest, e)) => Some((seq![msg.subrange(off + 1, off + 1 + n)] + rest, e)),
                None => None,
            }
        }
    }
}

/// Labels with dots between them.
pub open spec fn dotted(labels: Seq<Seq<u8>>) -> Seq<char>
    decreases labels.len(),
{
    if labels.len() == 0 {
        Seq::empty()
    } else if labels.len() == 1 {
        codec::utf8_text(labels[0])
    } else {
        dotted(labels.drop_last()) + seq!['.'] + codec::utf8_text(labels.last())
    }
}

/// The name at a position and the position behind it.
pub open spec fn name_at(msg: Seq<u8>, off: int) -> Option<(Seq<char>, int)> {
    match labels_at(msg, off, None, 64) {
        Some((l, e)) => Some((dotted(l), e)),
        None => None,
    }
}

proof fn lemma_end_in_range(msg: Seq<u8>, off: int, end: Option<int>, fuel: nat)
    requires
        0 <= off,
        end is Some ==> 0 <= end->0 <= msg.len(),
    ensures
        labels_at(msg, off, end, fuel) is Some ==> 0 <= (labels_at(msg, off, end, fuel)->0).1
            <= msg.len(),
        labels_at(msg, off, end, fuel) is Some && end is None ==> off < (labels_at(
            msg,
            off,
            end,
            fuel,
        )->0).1,
    decreases fuel,
{
    if fuel > 0 && off < msg.len() {
        let n = msg[off] as int;
        if n == 0 {
        } else if n >= 0xC0 {
            if off + 1 < msg.len() {
                let e = match end {
                    Some(e) => e,
                    None => off + 2,
                };
                lemma_end_in_range(
                    msg,
                    (n - 0xC0) * 256 + msg[off + 1],
                    Some(e),
                    (fuel - 1) as nat,
                );
                lemma_end_is_kept(
                    msg,
                    (n - 0xC0) * 256 + msg[off + 1],
                    e,
                    (fuel - 1) as nat,
                );
            }
        } else if off + 1 + n <= msg.len() {
            lemma_end_in_range(msg, off + 1 + n, end, (fuel - 1) as nat);
        }
    }
}

proof fn lemma_end_is_kept(msg: Seq<u8>, off: int, e: int, fuel: nat)
    ensures
        labels_at(msg, off, Some(e), fuel) is Some ==> (labels_at(msg, off, Some(e), fuel)->0).1
            == e,
    decreases fuel,
{
    if fuel > 0 && off < msg.len() {
        let n = msg[off] as int;
        if n == 0 {
        } else if n >= 0xC0 {
            if off + 1 < msg.len() {
                lemma_end_is_kept(
                    msg,
                    (n - 0xC0) * 256 + msg[off + 1],
                    e,
                    (fuel - 1) as nat,
                );
            }
        } else if off + 1 + n <= msg.len() {
            lemma_end_is_kept(msg, off + 1 + n, e, (fuel - 1) as nat);
        }
    }
}

pub fn read_dns_name(msg: &[u8], start: usize) -> (r: Option<(Vec<char>, usize)>)
    ensures
        match r {
            Some((n, e)) => name_at(msg@, start as int) == Some((n@, e as int)) && start < e
                <= msg@.len(),
            None => name_at(msg@, start as int) is None,
        },
{
    let mut off: usize = start;
    let mut end: Option<usize> = None;
    let mut name: Vec<char> = Vec::new();
    let ghost mut labels: Seq<Seq<u8>> = Seq::empty();
    let mut first: bool = true;
    let mut fuel: u32 = 64;
    proof {
        lemma_end_in_range(msg@, start as int, None, 64);
        let whole = labels_at(msg@, start as int, None, 64);
        if whole is Some {
            assert(labels + (whole->0).0 =~= (whole->0).0);
        }
    }
    while fuel > 0
        invariant
            fuel <= 64,
            first == (labels.len() == 0),
            name@ == dotted(labels),
            labels_at(msg@, start as int, None, 64) is Some ==> start < (labels_at(
                msg@,
                start as int,
                None,
                64,
            )->0).1 <= msg@.len(),
            labels_at(msg@, start as int, None, 64) == (match labels_at(
                msg@,
                off as int,
                match end {
                    Some(e) => Some(e as int),
                    None => None,
                },
                fuel as nat,
            ) {
                Some((rest, e)) => Some((labels + rest, e)),
                None => None,
            }),
        decreases fuel,
    {
        if off >= msg.len() {
            return None;
        }
        let size: usize = msg.len();
        let n: usize = msg[off] as usize;
        if n == 0 {
            let e: usize = match end {
                Some(e) => e,
                None => off + 1,
            };
            assert(labels + Seq::<Seq<u8>>::empty() =~= labels);
            return Some((name, e));
        }
        fuel -= 1;
        if n >= 0xC0 {
            if off + 1 >= size {
                return None;
            }
            if end.is_none() {
                end = Some(off + 2);
            }
            off = (n - 0xC0) * 256 + msg[off + 1] as usize;
        } else {
            if n > size - off - 1 {
                return None;
            }
            let label = &msg[off + 1..off + 1 + n];
            let t = codec::utf8_lossy(label);
            let ghost before = labels;
            proof {
                labels = labels.push(label@);
                assert(labels.drop_last() =~= before);
                let rest = labels_at(
                    msg@,
                    off + 1 + n,
                    match end {
                        Some(e) => Some(e as int),
                        None => None,
                    },
                    fuel as nat,
                );
                if rest is Some {
                    assert(before + (seq![label@] + (rest->0).0) =~= labels + (rest->0).0);
                }
            }
            if !first {
                name.push('.');
            }
            text::append_str(&mut name, t.as_str());
            proof {
                if first {
                    assert(name@ =~= codec::utf8_text(label@));
                } else {
                    assert(name@ =~= dotted(before) + seq!['.'] + codec::utf8_text(label@));
                }
            }
            first = false;
            off = off + 1 + n;
        }
    }
    None
}

// ---- queries ----
/// The id, name and type of the first question of a query of the Internet
/// class.
pub open spec fn query_of(p: Seq<u8>) -> Option<(int, Seq<char>, int)> {
    if p.len() < 12 || p[2] >= 0x80 || codec::be16(p[4], p[5]) < 1 {
        None
    } else {
        match name_at(p, 12) {
            Some((name, off)) => if off + 4 > p.len() || name.len() == 0 || codec::be16(
                p[off + 2],
                p[off + 3],
            ) != 1 {
                None
            } else {
                Some((codec::be16(p[0], p[1]), name, codec::be16(p[off], p[off + 1])))
            },
            None => None,
        }
    }
}

pub fn parse_dns_query(payload: &[u8]) -> (r: Option<(u16, String, u16)>)
    ensures
        match r {
            Some((id, name, ty)) => query_of(payload@) == Some((id as int, name@, ty as int)),
            None => query_of(payload@) is None,
        },
{
    let n: usize = payload.len();
    if n < 12 {
        return None;
    }
    let id: u16 = codec::read_be16(payload[0], payload[1]);
    if payload[2] >= 0x80 {
        return None;
    }
    if codec::read_be16(payload[4], payload[5]) < 1 {
        return None;
    }
    match read_dns_name(payload, 12) {
        None => None,
        Some((name, off)) => {
            if n - off < 4 || name.len() == 0 {
                return None;
            }
            let ty: u16 = codec::read_be16(payload[off], payload[off + 1]);
            let class: u16 = codec::read_be16(payload[off + 2], payload[off + 3]);
            if class == 1 {
                Some((id, text::string_of(name.as_slice()), ty))
            } else {
                None
            }
        },
    }
}

// ---- answers ----
/// The position behind `n` questions.
pub open spec fn after_questions(msg: Seq<u8>, off: int, n: nat) -> Option<int>
    decreases n,
{
    if n == 0 {
        Some(off)
    } else {
        match name_at(msg, off) {
            Some((_, e)) => if e + 4 > msg.len() {
                None
            } else {
                after_questions(msg, e + 4, (n - 1) as nat)
            },
            None => None,
        }
    }
}

/// The IPv4 addresses of `n` answers.
pub open spec fn addresses_at(msg: Seq<u8>, off: int, n: nat) -> Option<Seq<Seq<u8>>>
    decreases n,
{
    if n == 0 {
        Some(Seq::empty())
    } else {
        match name_at(msg, off) {
            None => None,
            Some((_, e)) => if e + 10 > msg.len() {
                None
            } else {
                let ty = codec::be16(msg[e], msg[e + 1]);
                let len = codec::be16(msg[e + 8], msg[e + 9]);
                if e + 10 + len > msg.len() {
                    None
                } else {
                    match addresses_at(msg, e + 10 + len, (n - 1) as nat) {
                        None => None,
                        Some(rest) => Some(
                            if ty == 1 && len == 4 {
                                seq![msg.subrange(e + 10, e + 14)] + rest
                            } else {
                                rest
                            },
                        ),
                    }
                }
            },
        }
    }
}

/// The IPv4 addresses of a response.
pub open spec fn answers_of(msg: Seq<u8>) -> Option<Seq<Seq<u8>>> {
    if msg.len() < 12 || msg[2] < 0x80 {
        None
    } else {
        match after_questions(msg, 12, codec::be16(msg[4], msg[5]) as nat) {
            Some(off) => addresses_at(msg, off, codec::be16(msg[6], msg[7]) as nat),
            None => None,
        }
    }
}

pub open spec fn octets(v: Seq<[u8; 4]>) -> Seq<Seq<u8>> {
    Seq::new(v.len(), |i: int| v[i]@)
}

pub fn parse_a_answers(msg: &[u8]) -> (r: Option<Vec<[u8; 4]>>)
    ensures
        (match r {
            Some(v) => Some(octets(v@)),
            None => None,
        }) == answers_of(msg@),
{
    let n: usize = msg.len();
    if n < 12 || msg[2] < 0x80 {
        return None;
    }
    let mut qd: u16 = codec::read_be16(msg[4], msg[5]);
    let an: u16 = codec::read_be16(msg[6], msg[7]);
    let mut off: usize = 12;
    while qd > 0
        invariant
            n == msg@.len(),
            12 <= n,
            off <= n,
            an == codec::be16(msg@[6], msg@[7]),
            msg@[2] >= 0x80,
            after_questions(msg@, 12, codec::be16(msg@[4], msg@[5]) as nat) == after_questions(
                msg@,
                off as int,
                qd as nat,
            ),
        decreases qd,
    {
        match read_dns_name(msg, off) {
            Some((_, e)) => {
                if n - e < 4 {
                    return None;
                }
                off = e + 4;
            },
            None => return None,
        }
        qd -= 1;
    }
    let mut left: u16 = an;
    let mut ips: Vec<[u8; 4]> = Vec::new();
    let ghost start = off as int;
    let ghost whole = addresses_at(msg@, start, an as nat);
    proof {
        if whole is Some {
            assert(octets(ips@) + whole->0 =~= whole->0);
        }
    }
    while left > 0
        invariant
            n == msg@.len(),
            off <= n,
            answers_of(msg@) == whole,
            whole == (match addresses_at(msg@, off as int, left as nat) {
                Some(rest) => Some(octets(ips@) + rest),
                None => None,
            }),
        decreases left,
    {
        let e: usize = match read_dns_name(msg, off) {
            Some((_, e)) => e,
            None => return None,
        };
        if n - e < 10 {
            return None;
        }
        let ty: u16 = codec::read_be16(msg[e], msg[e + 1]);
        let len: usize = codec::read_be16(msg[e + 8], msg[e + 9]) as usize;
        if n - e - 10 < len {
            return None;
        }
        left -= 1;
        if ty == 1 && len == 4 {
            let ip: [u8; 4] = [msg[e + 10], msg[e + 11], msg[e + 12], msg[e + 13]];
            let ghost before = octets(ips@);
            ips.push(ip);
            proof {
                assert(ip@ =~= msg@.subrange(e + 10, e + 14));
                assert(octets(ips@) =~= before.push(ip@));
                let rest = addresses_at(msg@, e + 10 + len, left as nat);
                if rest is Some {
                    assert(before + (seq![ip@] + rest->0) =~= octets(ips@) + rest->0);
                }
            }
        }
        off = e + 10 + len;
    }
    assert(octets(ips@) + Seq::<Seq<u8>>::empty() =~= octets(ips@));
    Some(ips)
}

// ---- building ----
/// The wire form of labels, each behind its length in one octet.
pub open spec fn label_bytes(labels: Seq<Seq<char>>) -> Seq<u8>
    decreases labels.len(),
{
    if labels.len() == 0 {
        Seq::empty()
    } else {
        let b = vstd::utf8::encode_utf8(labels.last());
        let head = label_bytes(labels.drop_last());
        if b.len() == 0 {
            head
        } else {
            head + seq![(b.len() % 256) as u8] + b
        }
    }
}

/// The wire form of a host name.
pub open spec fn name_bytes(name: Seq<char>) -> Seq<u8> {
    label_bytes(text::pieces(utils::ascii_host(name), "."@)) + seq![0u8]
}

pub fn encode_dns_name(name: &str) -> (r: Vec<u8>)
    ensures
        r@ == name_bytes(name@),
{
    let host = utils::domain_to_ascii(name);
    let c = text::chars_of(host.as_str());
    let labels = text::split(c.as_slice(), ".");
    let ghost ls = text::texts(labels@);
    let mut out: Vec<u8> = Vec::new();
    let mut i: usize = 0;
    assert(out@ =~= label_bytes(ls.take(0)));
    while i < labels.len()
        invariant
            i <= labels@.len(),
            ls == text::texts(labels@),
            out@ == label_bytes(ls.take(i as int)),
        decreases labels@.len() - i,
    {
        proof {
            assert(ls.take(i + 1).drop_last() =~= ls.take(i as int));
            assert(ls.take(i + 1).last() == labels@[i as int]@);
        }
        let s = text::string_of(labels[i]);
        let b = codec::bytes_of(s.as_str());
        if b.len() > 0 {
            let ghost before = out@;
            out.push((b.len() % 256) as u8);
            codec::append(&mut out, b.as_slice());
            assert(out@ =~= before + seq![(b@.len() % 256) as u8] + b@);
        }
        i += 1;
    }
    assert(ls.take(i as int) =~= ls);
    out.push(0);
    assert(out@ =~= name_bytes(name@));
    out
}

/// The twelve octets of a header.
pub open spec fn header(id: int, flags: int, questions: int, answers: int) -> Seq<u8> {
    codec::be16_bytes(id) + codec::be16_bytes(flags) + codec::be16_bytes(questions)
        + codec::be16_bytes(answers) + seq![0u8, 0u8, 0u8, 0u8]
}

/// A question of the Internet class.
pub open spec fn question(name: Seq<char>, ty: int) -> Seq<u8> {
    name_bytes(name) + codec::be16_bytes(ty) + codec::be16_bytes(1)
}

/// An IPv4 answer for the name of the first question.
pub open spec fn a_answer(ttl: int, ip: Seq<u8>) -> Seq<u8> {
    codec::be16_bytes(0xC00C) + codec::be16_bytes(1) + codec::be16_bytes(1) + codec::be32_bytes(ttl)
        + codec::be16_bytes(4) + ip
}

fn push_header(out: &mut Vec<u8>, id: u16, flags: u16, questions: u16, answers: u16)
    ensures
        final(out)@ == old(out)@ + header(
            id as int,
            flags as int,
            questions as int,
            answers as int,
        ),
{
    codec::push_be16(out, id);
    codec::push_be16(out, flags);
    codec::push_be16(out, questions);
    codec::push_be16(out, answers);
    codec::push_be32(out, 0);
    assert(codec::be32_bytes(0) =~= seq![0u8, 0u8, 0u8, 0u8]);
    assert(out@ =~= old(out)@ + header(id as int, flags as int, questions as int, answers as int));
}

fn push_question(out: &mut Vec<u8>, name: &str, ty: u16)
    ensures
        final(out)@ == old(out)@ + question(name@, ty as int),
{
    let n = encode_dns_name(name);
    codec::append(out, n.as_slice());
    codec::push_be16(out, ty);
    codec::push_be16(out, 1);
    assert(out@ =~= old(out)@ + question(name@, ty as int));
}

fn push_answer(out: &mut Vec<u8>, ttl: u32, ip: [u8; 4])
    ensures
        final(out)@ == old(out)@ + a_answer(ttl as int, ip@),
{
    codec::push_be16(out, 0xC00C);
    codec::push_be16(out, 1);
    codec::push_be16(out, 1);
    codec::push_be32(out, ttl);
    codec::push_be16(out, 4);
    codec::append(out, ip.as_slice());
    assert(out@ =~= old(out)@ + a_answer(ttl as int, ip@));
}

/// A query for the IPv4 addresses of a name.
pub fn build_dns_query(id: u16, qname: &str) -> (r: Vec<u8>)
    ensures
        r@ == header(id as int, 0x0100, 1, 0) + question(qname@, 1),
{
    let mut out: Vec<u8> = Vec::new();
    push_header(&mut out, id, 0x0100, 1, 0);
    push_question(&mut out, qname, 1);
    assert(out@ =~= header(id as int, 0x0100, 1, 0) + question(qname@, 1));
    out
}

/// A response with one IPv4 address, valid for five minutes.
pub fn build_named_a_response(id: u16, qname: &str, ip: [u8; 4]) -> (r: Vec<u8>)
    ensures
        r@ == header(id as int, 0x8580, 1, 1) + question(qname@, 1) + a_answer(300, ip@),
{
    let mut out: Vec<u8> = Vec::new();
    push_header(&mut out, id, 0x8580, 1, 1);
    push_question(&mut out, qname, 1);
    push_answer(&mut out, 300, ip);
    assert(out@ =~= header(id as int, 0x8580, 1, 1) + question(qname@, 1) + a_answer(300, ip@));
    out
}

/// A successful response without answers.
pub fn build_empty_dns(id: u16, qname: &str, qtype: u16) -> (r: Vec<u8>)
    ensures
        r@ == header(id as int, 0x8180, 1, 0) + question(qname@, qtype as int),
{
    let mut out: Vec<u8> = Vec::new();
    push_header(&mut out, id, 0x8180, 1, 0);
    push_question(&mut out, qname, qtype);
    assert(out@ =~= header(id as int, 0x8180, 1, 0) + question(qname@, qtype as int));
    out
}

/// The position behind the labels of a question that begins at `i`.
pub open spec fn labels_end(q: Seq<u8>, i: int) -> int
    decreases
            (if i < q.len() {
                q.len() - i
            } else {
                0
            }),
{
    if 0 <= i < q.len() && q[i] != 0 {
        labels_end(q, i + 1 + q[i])
    } else {
        i
    }
}

/// A response to a query with one IPv4 address, valid for one minute: the
/// header and question of the query, marked as a response, and the answer.
pub open spec fn a_response(query: Seq<u8>, ip: Seq<u8>) -> Option<Seq<u8>> {
    let end = labels_end(query, 12) + 5;
    if query.len() < 12 || end > query.len() {
        None
    } else {
        Some(
            query.take(12).update(2, 0x81).update(3, 0x80).update(6, 0).update(7, 1)
                + query.subrange(12, end) + a_answer(60, ip),
        )
    }
}

pub fn build_a_response(query: &[u8], ip: [u8; 4]) -> (r: Option<Vec<u8>>)
    ensures
        codec::opt_bytes(r) == a_response(query@, ip@),
{
    let n: usize = query.len();
    if n < 12 {
        return None;
    }
    let mut out = codec::copy(&query[0..12]);
    out[2] = 0x81;
    out[3] = 0x80;
    out[6] = 0;
    out[7] = 1;
    let mut i: usize = 12;
    while i < n && query[i] != 0
        invariant
            n == query@.len(),
            12 <= i,
            12 <= n,
            labels_end(query@, 12) == labels_end(query@, i as int),
        decreases n - i,
    {
        let step: usize = query[i] as usize;
        if step >= n - i {
            // The next label would begin behind the end.
            assert(labels_end(query@, i + 1 + step) == i + 1 + step);
            return None;
        }
        i = i + 1 + step;
    }
    if i > n || n - i < 5 {
        return None;
    }
    let ghost head = out@;
    codec::append(&mut out, &query[12..i + 5]);
    push_answer(&mut out, 60, ip);
    proof {
        assert(head =~= query@.take(12).update(2, 0x81).update(3, 0x80).update(6, 0).update(7, 1));
        assert(out@ =~= head + query@.subrange(12, i + 5) + a_answer(60, ip@));
    }
    Some(out)
}

// ---- laws ----
/// The wire form of one label; an empty one has none.
pub open spec fn one_label(l: Seq<char>) -> Seq<u8> {
    let b = vstd::utf8::encode_utf8(l);
    if b.len() == 0 {
        Seq::empty()
    } else {
        seq![(b.len() % 256) as u8] + b
    }
}

proof fn lemma_first_label(labels: Seq<Seq<char>>)
    requires
        labels.len() > 0,
    ensures
        label_bytes(labels) == one_label(labels[0]) + label_bytes(labels.skip(1)),
    decreases labels.len(),
{
    if labels.len() == 1 {
        assert(labels.drop_last() =~= Seq::<Seq<char>>::empty());
        assert(labels.skip(1) =~= Seq::<Seq<char>>::empty());
        assert(label_bytes(labels) =~= one_label(labels[0]) + label_bytes(labels.skip(1)));
    } else {
        lemma_first_label(labels.drop_last());
        let rest = labels.skip(1);
        assert(rest.drop_last() =~= labels.drop_last().skip(1));
        assert(rest.last() == labels.last());
        assert(label_bytes(labels) =~= label_bytes(labels.drop_last()) + one_label(labels.last()));
        assert(label_bytes(rest) =~= label_bytes(rest.drop_last()) + one_label(rest.last()));
        assert(label_bytes(labels) =~= one_label(labels[0]) + label_bytes(rest));
    }
}

/// Labels that are short enough for the wire.
pub open spec fn wire_labels(labels: Seq<Seq<char>>) -> bool {
    labels.len() < 63 && forall|i: int|
        0 <= i < labels.len() ==> vstd::utf8::encode_utf8(#[trigger] labels[i]).len() < 64
}

proof fn lemma_labels_end(
    msg: Seq<u8>,
    off: int,
    labels: Seq<Seq<char>>,
    end: Option<int>,
    fuel: nat,
)
    requires
        0 <= off,
        wire_labels(labels),
        labels.len() < fuel,
        off + label_bytes(labels).len() < msg.len(),
        msg.subrange(off, off + label_bytes(labels).len() + 1) == label_bytes(labels) + seq![0u8],
    ensures
        labels_at(msg, off, end, fuel) is Some,
        (labels_at(msg, off, end, fuel)->0).1 == (match end {
            Some(e) => e,
            None => off + label_bytes(labels).len() + 1,
        }),
    decreases labels.len(),
{
    let whole = label_bytes(labels) + seq![0u8];
    let sub = msg.subrange(off, off + label_bytes(labels).len() + 1);
    if labels.len() == 0 {
        assert(label_bytes(labels) =~= Seq::<u8>::empty());
        assert(sub[0] == 0);
    } else {
        lemma_first_label(labels);
        let rest = labels.skip(1);
        let first = one_label(labels[0]);
        assert forall|i: int| 0 <= i < rest.len() implies vstd::utf8::encode_utf8(
            #[trigger] rest[i],
        ).len() < 64 by {
            assert(rest[i] == labels[i + 1]);
        }
        let at = off + first.len();
        assert(msg.subrange(at, at + label_bytes(rest).len() + 1) =~= label_bytes(rest)
            + seq![0u8]) by {
            assert forall|k: int| 0 <= k < label_bytes(rest).len() + 1 implies msg[at + k] == (
            label_bytes(rest) + seq![0u8])[k] by {
                assert(sub[first.len() + k] == msg[at + k]);
                assert(whole[first.len() + k] == (label_bytes(rest) + seq![0u8])[k]);
            }
        }
        if first.len() == 0 {
            lemma_labels_end(msg, off, rest, end, fuel);
        } else {
            let n = vstd::utf8::encode_utf8(labels[0]).len();
            assert(sub[0] == whole[0] == first[0]);
            assert(msg[off] == n);
            lemma_labels_end(msg, at, rest, end, (fuel - 1) as nat);
        }
    }
}

/// Reading the addresses of a built response gives the address that was put
/// in, for every name whose labels fit the wire.
pub proof fn law_response_reads_back(id: int, name: Seq<char>, ip: Seq<u8>)
    requires
        0 <= id < 0x1_0000,
        ip.len() == 4,
        wire_labels(text::pieces(utils::ascii_host(name), "."@)),
    ensures
        answers_of(header(id, 0x8580, 1, 1) + question(name, 1) + a_answer(300, ip)) == Some(
            seq![ip],
        ),
{
    let labels = text::pieces(utils::ascii_host(name), "."@);
    let h = header(id, 0x8580, 1, 1);
    let q = question(name, 1);
    let a = a_answer(300, ip);
    let msg = h + q + a;
    let nb = name_bytes(name);
    let e = (12 + nb.len()) as int;
    assert(h.len() == 12 && a.len() == 16 && q.len() == nb.len() + 4);
    assert(msg.subrange(12, e) =~= nb);
    lemma_labels_end(msg, 12, labels, None, 64);
    assert(msg[2] == h[2] == 0x85);
    assert(msg[4] == h[4] == 0 && msg[5] == h[5] == 1);
    assert(msg[6] == h[6] == 0 && msg[7] == h[7] == 1);
    assert(codec::be16(msg[4], msg[5]) == 1);
    assert(after_questions(msg, e + 4, 0) == Some(e + 4));
    assert(after_questions(msg, 12, 1) == Some(e + 4));
    let o = e + 4;
    assert forall|k: int| 0 <= k < 16 implies #[trigger] msg[o + k] == a[k] by {}
    assert(msg[o] == a[0] == 0xC0);
    assert(msg[o + 1] == a[1] == 0x0C);
    lemma_labels_end(msg, 12, labels, Some(o + 2), 63);
    assert(name_at(msg, o) is Some && (name_at(msg, o)->0).1 == o + 2);
    assert(msg[o + 2] == a[2] == 0 && msg[o + 3] == a[3] == 1);
    assert(msg[o + 10] == a[10] == 0 && msg[o + 11] == a[11] == 4);
    assert(msg.subrange(o + 12, o + 16) =~= ip) by {
        assert forall|k: int| 0 <= k < 4 implies msg[o + 12 + k] == ip[k] by {
            assert(msg[o + (12 + k)] == a[12 + k]);
        }
    }
    assert(addresses_at(msg, o + 16, 0) == Some(Seq::<Seq<u8>>::empty()));
    assert(addresses_at(msg, o, 1) == Some(seq![ip] + Seq::<Seq<u8>>::empty()));
    assert(seq![ip] + Seq::<Seq<u8>>::empty() =~= seq![ip]);
}

/// A response without answers holds no address and is no query.
pub proof fn law_empty_response(id: int, name: Seq<char>, ty: int)
    requires
        0 <= id < 0x1_0000,
        0 <= ty < 0x1_0000,
        wire_labels(text::pieces(utils::ascii_host(name), "."@)),
    ensures
        answers_of(header(id, 0x8180, 1, 0) + question(name, ty)) == Some(Seq::<Seq<u8>>::empty()),
        query_of(header(id, 0x8180, 1, 0) + question(name, ty)) is None,
{
    let labels = text::pieces(utils::ascii_host(name), "."@);
    let h = header(id, 0x8180, 1, 0);
    let msg = h + question(name, ty);
    let nb = name_bytes(name);
    let e = (12 + nb.len()) as int;
    assert(h.len() == 12);
    assert(msg.subrange(12, e) =~= nb);
    lemma_labels_end(msg, 12, labels, None, 64);
    assert(msg[2] == h[2] == 0x81);
    assert(msg[4] == h[4] == 0 && msg[5] == h[5] == 1);
    assert(msg[6] == h[6] == 0 && msg[7] == h[7] == 0);
    assert(after_questions(msg, e + 4, 0) == Some(e + 4));
    assert(after_questions(msg, 12, 1) == Some(e + 4));
    assert(addresses_at(msg, e + 4, 0) == Some(Seq::<Seq<u8>>::empty()));
}

proof fn lemma_labels_at(msg: Seq<u8>, off: int, labels: Seq<Seq<char>>, fuel: nat)
    requires
        0 <= off,
        labels.len() < fuel,
        forall|i: int|
            0 <= i < labels.len() ==> 0 < vstd::utf8::encode_utf8(#[trigger] labels[i]).len() < 64,
        off + label_bytes(labels).len() < msg.len(),
        msg.subrange(off, off + label_bytes(labels).len() + 1) == label_bytes(labels) + seq![0u8],
    ensures
        labels_at(msg, off, None, fuel) == Some(
            (
                Seq::new(labels.len(), |i: int| vstd::utf8::encode_utf8(labels[i])),
                (off + label_bytes(labels).len() + 1) as int,
            ),
        ),
    decreases labels.len(),
{
    let all = Seq::new(labels.len(), |i: int| vstd::utf8::encode_utf8(labels[i]));
    let whole = label_bytes(labels) + seq![0u8];
    let sub = msg.subrange(off, off + label_bytes(labels).len() + 1);
    if labels.len() == 0 {
        assert(label_bytes(labels) =~= Seq::<u8>::empty());
        assert(sub[0] == 0);
        assert(all =~= Seq::<Seq<u8>>::empty());
    } else {
        lemma_first_label(labels);
        let rest = labels.skip(1);
        let b = vstd::utf8::encode_utf8(labels[0]);
        let first = one_label(labels[0]);
        assert(first.len() == b.len() + 1);
        assert forall|i: int| 0 <= i < rest.len() implies 0 < vstd::utf8::encode_utf8(
            #[trigger] rest[i],
        ).len() < 64 by {
            assert(rest[i] == labels[i + 1]);
        }
        let at = off + first.len();
        assert(msg.subrange(at, at + label_bytes(rest).len() + 1) =~= label_bytes(rest)
            + seq![0u8]) by {
            assert forall|k: int| 0 <= k < label_bytes(rest).len() + 1 implies msg[at + k] == (
            label_bytes(rest) + seq![0u8])[k] by {
                assert(sub[first.len() + k] == msg[at + k]);
                assert(whole[first.len() + k] == (label_bytes(rest) + seq![0u8])[k]);
            }
        }
        assert(sub[0] == whole[0] == first[0]);
        assert(msg[off] == b.len());
        assert(msg.subrange(off + 1, off + 1 + b.len()) =~= b) by {
            assert forall|k: int| 0 <= k < b.len() implies msg[off + 1 + k] == b[k] by {
                assert(sub[1 + k] == msg[off + (1 + k)]);
                assert(whole[1 + k] == first[1 + k] == b[k]);
            }
        }
        lemma_labels_at(msg, at, rest, (fuel - 1) as nat);
        let tail = Seq::new(rest.len(), |i: int| vstd::utf8::encode_utf8(rest[i]));
        assert(all =~= seq![b] + tail);
    }
}

proof fn lemma_dotted_front(labels: Seq<Seq<u8>>)
    requires
        labels.len() > 1,
    ensures
        dotted(labels) == codec::utf8_text(labels[0]) + seq!['.'] + dotted(labels.skip(1)),
    decreases labels.len(),
{
    let rest = labels.skip(1);
    if labels.len() == 2 {
        assert(dotted(labels.drop_last()) == codec::utf8_text(labels[0]));
        assert(dotted(rest) == codec::utf8_text(labels.last()));
    } else {
        lemma_dotted_front(labels.drop_last());
        assert(rest.drop_last() =~= labels.drop_last().skip(1));
        assert(rest.last() == labels.last());
        assert(dotted(labels) =~= codec::utf8_text(labels[0]) + seq!['.'] + dotted(rest));
    }
}

/// The pieces of a name between its dots, put together again, are the name.
proof fn lemma_pieces_dotted(name: Seq<char>)
    ensures
        ({
            let l = text::pieces(name, "."@);
            dotted(Seq::new(l.len(), |i: int| vstd::utf8::encode_utf8(l[i]))) == name
        }),
    decreases name.len(),
{
    reveal_strlit(".");
    assert("."@ =~= seq!['.']);
    let l = text::pieces(name, "."@);
    let b = Seq::new(l.len(), |i: int| vstd::utf8::encode_utf8(l[i]));
    text::lemma_sep_from(name, "."@, 0);
    match text::sep_from(name, "."@, 0) {
        None => {
            vstd::utf8::encode_utf8_valid_utf8(name);
            vstd::utf8::encode_utf8_decode_utf8(name);
            assert(b.len() == 1 && b[0] == vstd::utf8::encode_utf8(name));
        },
        Some(i) => {
            let rest = name.skip(i + 1);
            let lr = text::pieces(rest, "."@);
            let br = Seq::new(lr.len(), |k: int| vstd::utf8::encode_utf8(lr[k]));
            lemma_pieces_dotted(rest);
            text::lemma_pieces_nonempty(rest, "."@);
            assert(l =~= seq![name.take(i)] + lr);
            assert(b.skip(1) =~= br) by {
                assert forall|k: int| 0 <= k < lr.len() implies b.skip(1)[k] == br[k] by {
                    assert(l[k + 1] == lr[k]);
                }
            }
            vstd::utf8::encode_utf8_valid_utf8(name.take(i));
            vstd::utf8::encode_utf8_decode_utf8(name.take(i));
            assert(b[0] == vstd::utf8::encode_utf8(name.take(i)));
            lemma_dotted_front(b);
            assert(name[i] == '.') by {
                assert("."@.contains(name[i]));
                let k = choose|k: int| 0 <= k < "."@.len() && "."@[k] == name[i];
                assert("."@[0] == '.');
            }
            assert(name =~= name.take(i) + seq!['.'] + rest);
        },
    }
}

/// A name in ASCII that has no white space around it and no dot behind it is put in
/// lower case, and nothing else.
pub proof fn law_plain_names_are_lowered(name: Seq<char>)
    requires
        utils::all_ascii(name),
        text::trimmed(name) == name,
        name.len() > 0 ==> name.last() != '.',
    ensures
        utils::ascii_host(name) == text::lowered(name),
{
    assert(text::without_char_end(name, '.') == name);
    let h = text::lowered(name);
    assert forall|i: int| 0 <= i < h.len() implies (#[trigger] h[i]) <= '\u{7f}' by {
        assert(name[i] <= '\u{7f}');
    }
}

/// Reading a built query gives its id, the name in its ASCII form and the type of IPv4
/// addresses, for every name of up to sixty-three labels that each fit the wire and
/// are not empty.
pub proof fn law_query_reads_back(id: int, name: Seq<char>)
    requires
        0 <= id < 0x1_0000,
        text::pieces(utils::ascii_host(name), "."@).len() <= 63,
        forall|i: int|
            0 <= i < text::pieces(utils::ascii_host(name), "."@).len() ==> 0
                < vstd::utf8::encode_utf8(
                #[trigger] text::pieces(utils::ascii_host(name), "."@)[i],
            ).len() < 64,
    ensures
        query_of(header(id, 0x0100, 1, 0) + question(name, 1)) == Some(
            (id, utils::ascii_host(name), 1int),
        ),
{
    let host = utils::ascii_host(name);
    let labels = text::pieces(host, "."@);
    let h = header(id, 0x0100, 1, 0);
    let q = question(name, 1);
    let msg = h + q;
    let nb = name_bytes(name);
    let e = (12 + nb.len()) as int;
    assert(h.len() == 12 && q.len() == nb.len() + 4);
    assert(msg.subrange(12, e) =~= nb);
    lemma_labels_at(msg, 12, labels, 64);
    lemma_pieces_dotted(host);
    text::lemma_pieces_nonempty(host, "."@);
    assert(host.len() > 0) by {
        if host.len() == 0 {
            assert(labels == seq![host]);
            assert(labels[0].len() == 0);
            assert(vstd::utf8::encode_utf8(host).len() == 0);
        }
    }
    codec::law_be16_reads_back(id);
    let ib = codec::be16_bytes(id);
    assert(msg[0] == h[0] == ib[0] && msg[1] == h[1] == ib[1]);
    assert(msg[2] == h[2] == 1);
    assert(msg[4] == h[4] == 0 && msg[5] == h[5] == 1);
    assert(msg[e] == q[e - 12] && msg[e + 1] == q[e - 11]);
    assert(msg[e + 2] == q[e - 10] && msg[e + 3] == q[e - 9]);
    let n = nb.len() as int;
    assert(q[n] == 0 && q[n + 1] == 1 && q[n + 2] == 0 && q[n + 3] == 1);
}

/// What is shorter than a header, is a response, or asks nothing is no query.
pub proof fn law_no_query(p: Seq<u8>)
    requires
        p.len() < 12 || p[2] >= 0x80 || codec::be16(p[4], p[5]) == 0,
    ensures
        query_of(p) is None,
{
}

/// A message begins with its id, its flags, how many questions and answers it holds,
/// and twice zero, each in two bytes with the high one first.
pub proof fn law_header_layout(id: int, flags: int, questions: int, answers: int, rest: Seq<u8>)
    requires
        0 <= id < 0x1_0000,
        0 <= flags < 0x1_0000,
        0 <= questions < 0x1_0000,
        0 <= answers < 0x1_0000,
    ensures
        ({
            let m = header(id, flags, questions, answers) + rest;
            &&& m.len() == 12 + rest.len()
            &&& m[0] * 256 + m[1] == id
            &&& m[2] * 256 + m[3] == flags
            &&& m[4] * 256 + m[5] == questions
            &&& m[6] * 256 + m[7] == answers
            &&& m[8] == 0 && m[9] == 0 && m[10] == 0 && m[11] == 0
            &&& m.skip(12) == rest
        }),
{
    let h = header(id, flags, questions, answers);
    assert(h.len() == 12);
    assert((h + rest).skip(12) =~= rest);
}

/// A name on the wire ends with a zero, and begins with its first label: the length of
/// the label in one byte, and its bytes.
pub proof fn law_name_on_the_wire(name: Seq<char>)
    requires
        ({
            let l = vstd::utf8::encode_utf8(text::pieces(utils::ascii_host(name), "."@)[0]);
            0 < l.len() < 64
        }),
    ensures
        ({
            let l = vstd::utf8::encode_utf8(text::pieces(utils::ascii_host(name), "."@)[0]);
            let b = name_bytes(name);
            &&& b.len() >= l.len() + 2
            &&& b[0] == l.len()
            &&& b.subrange(1, 1 + l.len() as int) == l
            &&& b.last() == 0
        }),
{
    let labels = text::pieces(utils::ascii_host(name), "."@);
    text::lemma_pieces_nonempty(utils::ascii_host(name), "."@);
    lemma_first_label(labels);
    let l = vstd::utf8::encode_utf8(labels[0]);
    let b = name_bytes(name);
    assert(b.subrange(1, 1 + l.len() as int) =~= l);
}

/// A question is its name, its type and the Internet class; a reader that takes the
/// name gets it back in its ASCII form, whatever stands before and behind the
/// question.
pub proof fn law_question_reads_back(head: Seq<u8>, name: Seq<char>, ty: int, rest: Seq<u8>)
    requires
        head.len() == 12,
        0 <= ty < 0x1_0000,
        text::pieces(utils::ascii_host(name), "."@).len() <= 63,
        forall|i: int|
            0 <= i < text::pieces(utils::ascii_host(name), "."@).len() ==> 0
                < vstd::utf8::encode_utf8(
                #[trigger] text::pieces(utils::ascii_host(name), "."@)[i],
            ).len() < 64,
    ensures
        ({
            let m = head + question(name, ty) + rest;
            let n = name_at(m, 12);
            &&& n is Some
            &&& (n->0).0 == utils::ascii_host(name)
            &&& (n->0).1 == m.len() - rest.len() - 4
            &&& m[(n->0).1] * 256 + m[(n->0).1 + 1] == ty
            &&& m[(n->0).1 + 2] == 0 && m[(n->0).1 + 3] == 1
        }),
{
    let host = utils::ascii_host(name);
    let labels = text::pieces(host, "."@);
    let q = question(name, ty);
    let m = head + q + rest;
    let nb = name_bytes(name);
    let e = (12 + nb.len()) as int;
    assert(m.subrange(12, e) =~= nb);
    lemma_labels_at(m, 12, labels, 64);
    lemma_pieces_dotted(host);
    text::lemma_pieces_nonempty(host, "."@);
    let t = codec::be16_bytes(ty);
    assert(m[e] == t[0] && m[e + 1] == t[1]);
    assert(m[e + 2] == codec::be16_bytes(1)[0] && m[e + 3] == codec::be16_bytes(1)[1]);
}

/// An address record names the first name of its message by a pointer to the twelfth
/// byte, and holds the type of IPv4 addresses, the Internet class, how long it is
/// valid, the length four and the address.
pub proof fn law_record_layout(ttl: int, ip: Seq<u8>)
    requires
        0 <= ttl < 0x1_0000_0000,
        ip.len() == 4,
    ensures
        ({
            let a = a_answer(ttl, ip);
            &&& a.len() == 16
            &&& a.take(6) == seq![0xC0u8, 12u8, 0u8, 1u8, 0u8, 1u8]
            &&& a[6] * 0x1000000 + a[7] * 0x10000 + a[8] * 0x100 + a[9] == ttl
            &&& a[10] == 0 && a[11] == 4
            &&& a.skip(12) == ip
        }),
{
    let a = a_answer(ttl, ip);
    codec::law_be32_reads_back(ttl);
    let t = codec::be32_bytes(ttl);
    assert(a[6] == t[0] && a[7] == t[1] && a[8] == t[2] && a[9] == t[3]);
    assert(a.take(6) =~= seq![0xC0u8, 12u8, 0u8, 1u8, 0u8, 1u8]);
    assert(a.skip(12) =~= ip);
}

/// A response to a query keeps its id and its question, is marked as a successful
/// response with one answer, and ends with the address.
pub proof fn law_response_keeps_question(query: Seq<u8>, ip: Seq<u8>)
    requires
        ip.len() == 4,
        a_response(query, ip) is Some,
    ensures
        ({
            let r = a_response(query, ip)->0;
            let n = r.len() as int;
            &&& 29 <= n <= query.len() + 16
            &&& r[0] == query[0] && r[1] == query[1]
            &&& r[2] == 0x81 && r[3] == 0x80
            &&& r[4] == query[4] && r[5] == query[5]
            &&& r[6] == 0 && r[7] == 1
            &&& r.subrange(12, n - 16) == query.subrange(12, n - 16)
            &&& r[n - 6] == 0 && r[n - 5] == 4
            &&& r.subrange(n - 4, n) == ip
        }),
{
    let end = labels_end(query, 12) + 5;
    lemma_labels_end_grows(query, 12);
    law_record_layout(60, ip);
    let a = a_answer(60, ip);
    let r = a_response(query, ip)->0;
    let n = r.len() as int;
    assert(n == end + 16);
    assert(r.subrange(12, n - 16) =~= query.subrange(12, end));
    assert(r.subrange(n - 4, n) =~= a.skip(12));
    assert(r[n - 6] == a[10] && r[n - 5] == a[11]);
}

proof fn lemma_labels_end_grows(q: Seq<u8>, i: int)
    ensures
        labels_end(q, i) >= i,
    decreases
            (if i < q.len() {
                q.len() - i
            } else {
                0
            }),
{
    if 0 <= i < q.len() && q[i] != 0 {
        lemma_labels_end_grows(q, i + 1 + q[i]);
    }
}

} // verus!
