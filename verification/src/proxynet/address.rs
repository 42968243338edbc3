//! Target addresses on the wire.

use vstd::prelude::*;

use crate::codec;
use crate::ip;
use crate::ip::{Ip, IpView};
use crate::proxynet::error::{ProxyError, ProxyErrorCode};
use crate::text;

verus! {

pub struct ProxyAddress;

/// The longest form of an address: its type, a length and a name.
pub const MAX_LENGTH: usize = 257;

/// The bytes of an address: its type and the address, or the type, the length
/// and the bytes of a name; none for a name that is too long.
pub open spec fn address_bytes(
    host: Seq<char>,
    ipv4_type: u8,
    domain_type: u8,
    ipv6_type: u8,
) -> Option<Seq<u8>> {
    let name = vstd::utf8::encode_utf8(host);
    match ip::ip_of(host) {
        Some(IpView::V4(b)) => Some(seq![ipv4_type] + b),
        Some(IpView::V6(b)) => Some(seq![ipv6_type] + b),
        None => if name.len() > 255 {
            None
        } else {
            Some(seq![domain_type, name.len() as u8] + name)
        },
    }
}

/// How many bytes an address takes in a buffer; the type of a name that is too
/// long is written too.
pub open spec fn address_room(host: Seq<char>) -> nat {
    match address_bytes(host, 0, 0, 0) {
        Some(b) => b.len(),
        None => 1,
    }
}

pub proof fn lemma_address_room(host: Seq<char>, ipv4_type: u8, domain_type: u8, ipv6_type: u8)
    ensures
        match address_bytes(host, ipv4_type, domain_type, ipv6_type) {
            Some(b) => b.len() == address_room(host) && 2 <= b.len() <= MAX_LENGTH,
            None => address_room(host) == 1,
        },
{
    ip::lemma_ip_lengths(host);
}

/// The bytes of an address, if it has a form.
pub fn encode_address(host: &str, ipv4_type: u8, domain_type: u8, ipv6_type: u8) -> (r: Option<
    Vec<u8>,
>)
    ensures
        codec::opt_bytes(r) == address_bytes(host@, ipv4_type, domain_type, ipv6_type),
{
    let c = text::chars_of(host);
    let mut out: Vec<u8> = Vec::new();
    match ip::parse_ip(c.as_slice()) {
        Some(Ip::V4(b)) => {
            out.push(ipv4_type);
            codec::append(&mut out, b.as_slice());
            assert(out@ =~= seq![ipv4_type] + b@);
            Some(out)
        },
        Some(Ip::V6(b)) => {
            out.push(ipv6_type);
            codec::append(&mut out, b.as_slice());
            assert(out@ =~= seq![ipv6_type] + b@);
            Some(out)
        },
        None => {
            let name = codec::bytes_of(host);
            if name.len() > 255 {
                return None;
            }
            out.push(domain_type);
            out.push(name.len() as u8);
            codec::append(&mut out, name.as_slice());
            assert(out@ =~= seq![domain_type, name@.len() as u8] + name@);
            Some(out)
        },
    }
}

/// Writes an address into a buffer, from a position on; returns its length.
pub fn write_address_at(
    host: &str,
    dest: &mut [u8],
    at: usize,
    ipv4_type: u8,
    domain_type: u8,
    ipv6_type: u8,
) -> (r: Result<usize, ProxyError>)
    requires
        at + address_room(host@) <= old(dest)@.len(),
    ensures
        match address_bytes(host@, ipv4_type, domain_type, ipv6_type) {
            Some(b) => r == Ok::<usize, ProxyError>(b.len() as usize) && final(dest)@
                == codec::put_at(old(dest)@, at as int, b),
            None => r is Err && r->Err_0.says(
                ProxyErrorCode::StringTooLong,
                "Target host name exceeds the maximum of 255 bytes."@,
            ) && final(dest)@ == old(dest)@.update(at as int, domain_type),
        },
{
    proof {
        lemma_address_room(host@, ipv4_type, domain_type, ipv6_type);
    }
    match encode_address(host, ipv4_type, domain_type, ipv6_type) {
        Some(b) => {
            codec::put(dest, at, b.as_slice());
            Ok(b.len())
        },
        None => {
            dest[at] = domain_type;
            Err(
                ProxyError::new(
                    ProxyErrorCode::StringTooLong,
                    "Target host name exceeds the maximum of 255 bytes.",
                ),
            )
        },
    }
}

impl ProxyAddress {
    pub fn write_type_and_address(
        host: &str,
        dest: &mut [u8],
        ipv4_type: u8,
        domain_type: u8,
        ipv6_type: u8,
    ) -> (r: Result<usize, ProxyError>)
        requires
            address_room(host@) <= old(dest)@.len(),
        ensures
            match address_bytes(host@, ipv4_type, domain_type, ipv6_type) {
                Some(b) => r == Ok::<usize, ProxyError>(b.len() as usize) && final(dest)@
                    == codec::put_at(old(dest)@, 0, b),
                None => r is Err && r->Err_0.says(
                    ProxyErrorCode::StringTooLong,
                    "Target host name exceeds the maximum of 255 bytes."@,
                ) && final(dest)@ == old(dest)@.update(0, domain_type),
            },
    {
        write_address_at(host, dest, 0, ipv4_type, domain_type, ipv6_type)
    }

    /// A SOCKS address with the port behind it.
    pub fn write_socks_port_last(host: &str, port: u16, dest: &mut [u8]) -> (r: Result<
        usize,
        ProxyError,
    >)
        requires
            address_room(host@) <= old(dest)@.len(),
        ensures
            match address_bytes(host@, 1, 3, 4) {
                Some(b) => if old(dest)@.len() < b.len() + 2 {
                    r is Err && r->Err_0.says(
                        ProxyErrorCode::StringTooLong,
                        "address buffer too small"@,
                    ) && final(dest)@ == codec::put_at(old(dest)@, 0, b)
                } else {
                    r == Ok::<usize, ProxyError>((b.len() + 2) as usize) && final(dest)@
                        == codec::put_at(old(dest)@, 0, b + codec::be16_bytes(port as int))
                },
                None => r is Err && r->Err_0.says(
                    ProxyErrorCode::StringTooLong,
                    "Target host name exceeds the maximum of 255 bytes."@,
                ) && final(dest)@ == old(dest)@.update(0, 3),
            },
    {
        let ghost start = dest@;
        proof {
            lemma_address_room(host@, 1, 3, 4);
        }
        match write_address_at(host, dest, 0, 1, 3, 4) {
            Ok(n) => {
                if dest.len() < n + 2 {
                    return Err(
                        ProxyError::new(ProxyErrorCode::StringTooLong, "address buffer too small"),
                    );
                }
                let mut p: Vec<u8> = Vec::new();
                codec::push_be16(&mut p, port);
                assert(p@ =~= codec::be16_bytes(port as int));
                codec::put(dest, n, p.as_slice());
                proof {
                    let b = address_bytes(host@, 1, 3, 4)->0;
                    assert(dest@ =~= codec::put_at(start, 0, b + p@));
                }
                Ok(n + 2)
            },
            Err(e) => Err(e),
        }
    }

    /// A SOCKS address with the port before it.
    pub fn write_socks_port_first(host: &str, port: u16, dest: &mut [u8]) -> (r: Result<
        usize,
        ProxyError,
    >)
        requires
            old(dest)@.len() < 2 || address_room(host@) + 2 <= old(dest)@.len(),
        ensures
            if old(dest)@.len() < 2 {
                r is Err && r->Err_0.says(
                    ProxyErrorCode::StringTooLong,
                    "address buffer too small"@,
                ) && final(dest)@ == old(dest)@
            } else {
                match address_bytes(host@, 1, 3, 4) {
                    Some(b) => r == Ok::<usize, ProxyError>((b.len() + 2) as usize) && final(dest)@
                        == codec::put_at(old(dest)@, 0, codec::be16_bytes(port as int) + b),
                    None => r is Err && r->Err_0.says(
                        ProxyErrorCode::StringTooLong,
                        "Target host name exceeds the maximum of 255 bytes."@,
                    ) && final(dest)@ == codec::put_at(
                        old(dest)@,
                        0,
                        codec::be16_bytes(port as int).push(3),
                    ),
                }
            },
    {
        let ghost start = dest@;
        if dest.len() < 2 {
            return Err(ProxyError::new(ProxyErrorCode::StringTooLong, "address buffer too small"));
        }
        proof {
            lemma_address_room(host@, 1, 3, 4);
        }
        let mut p: Vec<u8> = Vec::new();
        codec::push_be16(&mut p, port);
        assert(p@ =~= codec::be16_bytes(port as int));
        codec::put(dest, 0, p.as_slice());
        match write_address_at(host, dest, 2, 1, 3, 4) {
            Ok(n) => {
                proof {
                    let b = address_bytes(host@, 1, 3, 4)->0;
                    assert(dest@ =~= codec::put_at(start, 0, p@ + b));
                }
                Ok(n + 2)
            },
            Err(e) => {
                assert(dest@ =~= codec::put_at(start, 0, p@.push(3)));
                Err(e)
            },
        }
    }
}

// ---- laws ----
/// An address on the wire begins with its type: an IPv4 address is followed by
/// its four bytes, an IPv6 address by its sixteen, and a name by its length in one
/// byte and its bytes; only a name of more than 255 bytes has no form.
pub proof fn law_address_reads_back(
    host: Seq<char>,
    ipv4_type: u8,
    domain_type: u8,
    ipv6_type: u8,
)
    ensures
        ({
            let a = address_bytes(host, ipv4_type, domain_type, ipv6_type);
            let name = vstd::utf8::encode_utf8(host);
            match ip::ip_of(host) {
                Some(IpView::V4(b)) => a is Some && a->0.len() == 5 && a->0[0] == ipv4_type
                    && a->0.subrange(1, 5) == b,
                Some(IpView::V6(b)) => a is Some && a->0.len() == 17 && a->0[0] == ipv6_type
                    && a->0.subrange(1, 17) == b,
                None => if name.len() <= 255 {
                    a is Some && a->0.len() == name.len() + 2 && a->0[0] == domain_type
                        && a->0[1] == name.len() && a->0.skip(2) == name
                } else {
                    a is None
                },
            }
        }),
{
    ip::lemma_ip_lengths(host);
    let name = vstd::utf8::encode_utf8(host);
    match ip::ip_of(host) {
        Some(IpView::V4(b)) => {
            assert((seq![ipv4_type] + b).subrange(1, 5) =~= b);
        },
        Some(IpView::V6(b)) => {
            assert((seq![ipv6_type] + b).subrange(1, 17) =~= b);
        },
        None => {
            assert((seq![domain_type, name.len() as u8] + name).skip(2) =~= name);
        },
    }
}

} // verus!
